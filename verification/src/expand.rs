//! Macro expansion: self-expanding transforms are replaced by their
//! generated transforms, depth first and in declaration order.
//!
//! Every replacement a transform generates is considered again, since
//! a generated transform may itself expand.  Each expanding component
//! is recorded in the expansion map together with the ordered keys of
//! its direct replacements.  Generated transforms inherit the raw
//! input list of the transform they replace.

use vstd::prelude::*;
use vstd::assert_seqs_equal;
use crate::config::{ConfigBuilder, Expansion, TransformConfig, TransformOuter};
use crate::id::ComponentKey;
use crate::inputs::Inputs;
use crate::messages::{str_views, push_err, mk_expansion_failed, msg_expansion_failed};
use crate::omap::OMap;

verus! {

/// One produced transform: its key view, its inherited input views,
/// and its configuration.
pub type TransEntry = (Seq<char>, Seq<Seq<char>>, TransformConfig);

/// One expansion record: the expanding key and its replacement keys.
pub type ExpEntry = (Seq<char>, Seq<Seq<char>>);

/// What one phase step produces: transforms, expansion records, and
/// expansion errors, each in order.
pub type ExpandOut = (Seq<TransEntry>, Seq<ExpEntry>, Seq<Seq<char>>);

/// The key views of a vector of component keys.
pub open spec fn vec_key_views(v: Vec<ComponentKey>) -> Seq<Seq<char>> {
    v@.map_values(|c: ComponentKey| c@)
}

/// The key views of a replacement list.
pub open spec fn spec_child_keys(cs: Seq<(ComponentKey, TransformConfig)>) -> Seq<Seq<char>> {
    cs.map_values(|c: (ComponentKey, TransformConfig)| c.0@)
}

/// What expanding one transform produces.
pub open spec fn spec_expand_cfg(key: Seq<char>, inviews: Seq<Seq<char>>, cfg: TransformConfig) -> ExpandOut
    decreases cfg, 0int, 0int,
    via spec_expand_cfg_dec
{
    match cfg.expansion {
        Expansion::Inert => (seq![(key, inviews, cfg)], Seq::<ExpEntry>::empty(), Seq::<Seq<char>>::empty()),
        Expansion::Fails(cause) => (
            Seq::<TransEntry>::empty(),
            Seq::<ExpEntry>::empty(),
            seq![msg_expansion_failed(key, cause@)],
        ),
        Expansion::Expands(children) => {
            let sub = spec_expand_children(inviews, children@, children@.len() as int);
            (sub.0, seq![(key, spec_child_keys(children@))] + sub.1, sub.2)
        },
    }
}

#[via_fn]
proof fn spec_expand_cfg_dec(key: Seq<char>, inviews: Seq<Seq<char>>, cfg: TransformConfig) {
    broadcast use vstd::std_specs::vec::axiom_vec_decreases_to_view;

    match cfg.expansion {
        Expansion::Expands(children) => {
            assert(decreases_to!(cfg => children));
            assert(decreases_to!(children => children@));
        },
        _ => {},
    }
}

/// What expanding the first `n` replacements produces.
pub open spec fn spec_expand_children(
    inviews: Seq<Seq<char>>,
    cs: Seq<(ComponentKey, TransformConfig)>,
    n: int,
) -> ExpandOut
    decreases cs, 1int, n,
    when n <= cs.len()
    via spec_expand_children_dec
{
    if n <= 0 {
        (Seq::<TransEntry>::empty(), Seq::<ExpEntry>::empty(), Seq::<Seq<char>>::empty())
    } else {
        let rest = spec_expand_children(inviews, cs, n - 1);
        let one = spec_expand_cfg(cs[n - 1].0@, inviews, cs[n - 1].1);
        (rest.0 + one.0, rest.1 + one.1, rest.2 + one.2)
    }
}

#[via_fn]
proof fn spec_expand_children_dec(inviews: Seq<Seq<char>>, cs: Seq<(ComponentKey, TransformConfig)>, n: int) {
    broadcast use vstd::seq::axiom_seq_index_decreases;

    if 0 < n <= cs.len() {
        assert(decreases_to!(cs => cs[n - 1]));
        assert(decreases_to!(cs[n - 1] => cs[n - 1].1));
    }
}

/// What expanding the first `n` declared transforms produces.
pub open spec fn spec_expand_all(
    kv: Seq<(Seq<char>, TransformOuter<String>)>,
    n: int,
) -> ExpandOut
    decreases n,
{
    if n <= 0 {
        (Seq::<TransEntry>::empty(), Seq::<ExpEntry>::empty(), Seq::<Seq<char>>::empty())
    } else {
        let rest = spec_expand_all(kv, n - 1);
        let one = spec_expand_cfg(kv[n - 1].0, kv[n - 1].1.inputs.views(), kv[n - 1].1.inner);
        (rest.0 + one.0, rest.1 + one.1, rest.2 + one.2)
    }
}

/// Whether the produced transform entries match a transform map tail.
pub open spec fn trans_entries_match(
    kv: Seq<(Seq<char>, TransformOuter<String>)>,
    entries: Seq<TransEntry>,
) -> bool {
    &&& kv.len() == entries.len()
    &&& forall|k: int|
        0 <= k < entries.len() ==> {
            &&& (#[trigger] kv[k]).0 == entries[k].0
            &&& kv[k].1.inputs.views() =~= entries[k].1
            &&& kv[k].1.inner == entries[k].2
        }
}

/// Whether the produced expansion records match an expansion map tail.
pub open spec fn exp_entries_match(
    kv: Seq<(Seq<char>, Vec<ComponentKey>)>,
    entries: Seq<ExpEntry>,
) -> bool {
    &&& kv.len() == entries.len()
    &&& forall|k: int|
        0 <= k < entries.len() ==> {
            &&& (#[trigger] kv[k]).0 == entries[k].0
            &&& vec_key_views(kv[k].1) =~= entries[k].1
        }
}

impl Inputs<String> {
    /// A copy of the raw input list with equal entry views.
    pub fn dup(&self) -> (r: Self)
        ensures
            r.views() =~= self.views(),
    {
        let mut items: Vec<String> = Vec::new();
        let n = self.items.len();
        for i in 0..n
            invariant
                n == self.items@.len(),
                items@.len() == i,
                forall|j: int| 0 <= j < i ==> items@[j]@ == self.items@[j]@,
        {
            items.push(self.items[i].clone());
        }
        Inputs { items }
    }
}


/// Composing two produced-transform matches over adjacent regions.
proof fn lemma_trans_match_compose(
    kv_old: Seq<(Seq<char>, TransformOuter<String>)>,
    kv_new: Seq<(Seq<char>, TransformOuter<String>)>,
    base: int,
    a: Seq<TransEntry>,
    c: Seq<TransEntry>,
)
    requires
        0 <= base <= kv_old.len(),
        kv_new.len() == kv_old.len() + c.len(),
        forall|k: int| 0 <= k < kv_old.len() ==> kv_new[k] == kv_old[k],
        trans_entries_match(kv_old.skip(base), a),
        trans_entries_match(kv_new.skip(kv_old.len() as int), c),
    ensures
        trans_entries_match(kv_new.skip(base), a + c),
{
    let merged = a + c;
    let tail = kv_new.skip(base);
    assert(tail.len() == merged.len());
    assert forall|k: int| 0 <= k < merged.len() implies {
        &&& (#[trigger] tail[k]).0 == merged[k].0
        &&& tail[k].1.inputs.views() =~= merged[k].1
        &&& tail[k].1.inner == merged[k].2
    } by {
        if k < a.len() {
            assert(tail[k] == kv_new[base + k]);
            assert(kv_new[base + k] == kv_old[base + k]);
            assert(kv_old.skip(base)[k] == kv_old[base + k]);
            assert(merged[k] == a[k]);
        } else {
            assert(tail[k] == kv_new[base + k]);
            assert(kv_new.skip(kv_old.len() as int)[k - a.len()] == kv_new[base + k]);
            assert(merged[k] == c[k - a.len()]);
        }
    }
}

/// Composing two expansion-record matches over adjacent regions.
proof fn lemma_exp_match_compose(
    kv_old: Seq<(Seq<char>, Vec<ComponentKey>)>,
    kv_new: Seq<(Seq<char>, Vec<ComponentKey>)>,
    base: int,
    a: Seq<ExpEntry>,
    c: Seq<ExpEntry>,
)
    requires
        0 <= base <= kv_old.len(),
        kv_new.len() == kv_old.len() + c.len(),
        forall|k: int| 0 <= k < kv_old.len() ==> kv_new[k] == kv_old[k],
        exp_entries_match(kv_old.skip(base), a),
        exp_entries_match(kv_new.skip(kv_old.len() as int), c),
    ensures
        exp_entries_match(kv_new.skip(base), a + c),
{
    let merged = a + c;
    let tail = kv_new.skip(base);
    assert(tail.len() == merged.len());
    assert forall|k: int| 0 <= k < merged.len() implies {
        &&& (#[trigger] tail[k]).0 == merged[k].0
        &&& vec_key_views(tail[k].1) =~= merged[k].1
    } by {
        if k < a.len() {
            assert(tail[k] == kv_new[base + k]);
            assert(kv_new[base + k] == kv_old[base + k]);
            assert(kv_old.skip(base)[k] == kv_old[base + k]);
            assert(merged[k] == a[k]);
        } else {
            assert(tail[k] == kv_new[base + k]);
            assert(kv_new.skip(kv_old.len() as int)[k - a.len()] == kv_new[base + k]);
            assert(merged[k] == c[k - a.len()]);
        }
    }
}

/// Expands one transform, appending what it produces.
#[verifier::loop_isolation(false)]
fn expand_cfg(
    key: ComponentKey,
    inputs: Inputs<String>,
    cfg: TransformConfig,
    out: &mut OMap<TransformOuter<String>>,
    expansions: &mut OMap<Vec<ComponentKey>>,
    errors: &mut Vec<String>,
)
    ensures
        ({
            let r = spec_expand_cfg(key@, inputs.views(), cfg);
            &&& final(out).kv_seq().len() == old(out).kv_seq().len() + r.0.len()
            &&& final(out).kv_seq().take(old(out).kv_seq().len() as int) =~= old(out).kv_seq()
            &&& trans_entries_match(final(out).kv_seq().skip(old(out).kv_seq().len() as int), r.0)
            &&& final(expansions).kv_seq().len() == old(expansions).kv_seq().len() + r.1.len()
            &&& final(expansions).kv_seq().take(old(expansions).kv_seq().len() as int) =~= old(
                expansions,
            ).kv_seq()
            &&& exp_entries_match(
                final(expansions).kv_seq().skip(old(expansions).kv_seq().len() as int),
                r.1,
            )
            &&& str_views(final(errors)@) =~= str_views(old(errors)@) + r.2
        }),
    decreases cfg,
{
    let ghost r = spec_expand_cfg(key@, inputs.views(), cfg);
    let ghost gcfg = cfg;
    let ghost gkey = key@;
    let ghost giv = inputs.views();
    let TransformConfig { input, outputs, expansion } = cfg;
    match expansion {
        Expansion::Inert => {
            let rebuilt = TransformConfig { input, outputs, expansion: Expansion::Inert };
            out.push(key, TransformOuter { inputs, inner: rebuilt });
            proof {
                assert(trans_entries_match(out.kv_seq().skip(old(out).kv_seq().len() as int), r.0));
                assert(out.kv_seq().take(old(out).kv_seq().len() as int) =~= old(out).kv_seq());
                assert(expansions.kv_seq().take(old(expansions).kv_seq().len() as int) =~= old(
                    expansions,
                ).kv_seq());
            }
        },
        Expansion::Fails(cause) => {
            push_err(errors, mk_expansion_failed(key.id(), cause.as_str()));
            proof {
                assert(str_views(errors@) =~= str_views(old(errors)@) + r.2);
                assert(out.kv_seq().take(old(out).kv_seq().len() as int) =~= old(out).kv_seq());
                assert(expansions.kv_seq().take(old(expansions).kv_seq().len() as int) =~= old(
                    expansions,
                ).kv_seq());
            }
        },
        Expansion::Expands(mut children) => {
            let ghost gkids = children;
            let ghost orig = children@;
            let mut child_keys: Vec<ComponentKey> = Vec::new();
            let cn = children.len();
            for i in 0..cn
                invariant
                    cn == children@.len(),
                    children@ == orig,
                    child_keys@.len() == i,
                    forall|j: int| 0 <= j < i ==> child_keys@[j] == orig[j].0,
            {
                child_keys.push(children[i].0.dup());
            }
            proof {
                assert(vec_key_views(child_keys) =~= spec_child_keys(orig));
            }
            let ghost gckv = vec_key_views(child_keys);
            let ghost gckvec = child_keys;
            expansions.push(key, child_keys);
            let ghost out0 = out.kv_seq();
            let ghost exp0 = expansions.kv_seq();
            let ghost errs0 = str_views(errors@);
            let mut idx: usize = 0;
            while idx < cn
                invariant
                    cn == orig.len(),
                    idx <= cn,
                    gcfg.expansion == Expansion::Expands(gkids),
                    gkids@ == orig,
                    giv == inputs.views(),
                    children@ =~= orig.skip(idx as int),
                    ({
                        let sub = spec_expand_children(giv, orig, idx as int);
                        &&& out.kv_seq().len() == out0.len() + sub.0.len()
                        &&& forall|k: int| 0 <= k < out0.len() ==> out.kv_seq()[k] == out0[k]
                        &&& trans_entries_match(out.kv_seq().skip(out0.len() as int), sub.0)
                        &&& expansions.kv_seq().len() == exp0.len() + sub.1.len()
                        &&& forall|k: int|
                            0 <= k < exp0.len() ==> expansions.kv_seq()[k] == exp0[k]
                        &&& exp_entries_match(expansions.kv_seq().skip(exp0.len() as int), sub.1)
                        &&& str_views(errors@) =~= errs0 + sub.2
                    }),
                decreases cn - idx,
            {
                let (ck, ccfg) = children.remove(0);
                proof {
                    broadcast use vstd::std_specs::vec::axiom_vec_decreases_to_view;
                    broadcast use vstd::seq::axiom_seq_index_decreases;

                    assert(ck == orig[idx as int].0);
                    assert(ccfg == orig[idx as int].1);
                    assert(gcfg.expansion == Expansion::Expands(gkids));
                    assert(decreases_to!(gcfg => gcfg.expansion));
                    assert(decreases_to!(gcfg.expansion => gcfg.expansion->Expands_0));
                    assert(decreases_to!(gcfg.expansion->Expands_0 => gcfg.expansion->Expands_0@));
                    assert(gcfg.expansion->Expands_0@ == orig);
                    assert(decreases_to!(orig => orig[idx as int]));
                    assert(decreases_to!(orig[idx as int] => orig[idx as int].1));
                    assert(decreases_to!(gcfg => ccfg));
                }
                let ghost out_mid = out.kv_seq();
                let ghost exp_mid = expansions.kv_seq();
                let dupped = inputs.dup();
                let ghost dv = dupped.views();
                expand_cfg(ck, dupped, ccfg, out, expansions, errors);
                idx = idx + 1;
                proof {
                    assert(children@ =~= orig.skip(idx as int));
                    assert(dv == giv);
                    assert(forall|k: int|
                        0 <= k < out_mid.len() ==> #[trigger] out.kv_seq()[k] == out_mid[k]);
                    assert(forall|k: int|
                        0 <= k < exp_mid.len() ==> #[trigger] expansions.kv_seq()[k] == exp_mid[k]);
                    let sub_prev = spec_expand_children(giv, orig, idx - 1);
                    let one = spec_expand_cfg(orig[idx - 1].0@, giv, orig[idx - 1].1);
                    let sub_new = spec_expand_children(giv, orig, idx as int);
                    assert(sub_new.0 == sub_prev.0 + one.0);
                    assert(sub_new.1 == sub_prev.1 + one.1);
                    assert(sub_new.2 == sub_prev.2 + one.2);
                    lemma_trans_match_compose(out_mid, out.kv_seq(), out0.len() as int, sub_prev.0, one.0);
                    lemma_exp_match_compose(exp_mid, expansions.kv_seq(), exp0.len() as int, sub_prev.1, one.1);
                    assert(str_views(errors@) =~= errs0 + sub_new.2);
                }
            }
            proof {
                let sub = spec_expand_children(giv, orig, cn as int);
                assert(r == spec_expand_cfg(gkey, giv, gcfg));
                assert(gcfg.expansion->Expands_0 == gkids);
                assert(gkids@ == orig);
                assert(cn as int == orig.len());
                assert(spec_expand_cfg(gkey, giv, gcfg) == (
                    sub.0,
                    seq![(gkey, spec_child_keys(orig))] + sub.1,
                    sub.2,
                ));
                assert(r.0 == sub.0);
                assert(r.1 == seq![(gkey, spec_child_keys(orig))] + sub.1);
                assert(r.2 == sub.2);
                let oldlen = old(expansions).kv_seq().len() as int;
                assert(exp0.len() == oldlen + 1);
                assert(exp0[oldlen] == (gkey, gckvec));
                assert(expansions.kv_seq().len() >= exp0.len());
                assert(expansions.kv_seq()[oldlen] == exp0[oldlen]);
                assert(expansions.kv_seq()[oldlen] == (gkey, gckvec));
                let head_rec: Seq<ExpEntry> = seq![(gkey, spec_child_keys(orig))];
                assert(exp0.skip(oldlen) =~= seq![(gkey, gckvec)]);
                assert(vec_key_views(gckvec) =~= spec_child_keys(orig));
                assert(exp_entries_match(exp0.skip(oldlen), head_rec));
                lemma_exp_match_compose(exp0, expansions.kv_seq(), oldlen, head_rec, sub.1);
                assert(exp_entries_match(
                    expansions.kv_seq().skip(old(expansions).kv_seq().len() as int),
                    r.1,
                ));
                assert(trans_entries_match(out.kv_seq().skip(old(out).kv_seq().len() as int), r.0));
                assert(str_views(errors@) =~= str_views(old(errors)@) + r.2);
                assert(out0 == old(out).kv_seq());
                assert(forall|k: int|
                    0 <= k < out0.len() ==> #[trigger] out.kv_seq()[k] == out0[k]);
                assert_seqs_equal!(
                    out.kv_seq().take(old(out).kv_seq().len() as int) == old(out).kv_seq(),
                    k => {
                        assert(out.kv_seq().take(old(out).kv_seq().len() as int)[k]
                            == out.kv_seq()[k]);
                        assert(out.kv_seq()[k] == out0[k]);
                    }
                );
                assert_seqs_equal!(
                    expansions.kv_seq().take(oldlen) == old(expansions).kv_seq(),
                    k => {
                        assert(expansions.kv_seq().take(oldlen)[k] == expansions.kv_seq()[k]);
                        assert(expansions.kv_seq()[k] == exp0[k]);
                        assert(exp0[k] == old(expansions).kv_seq()[k]);
                    }
                );
            }
        },
    }
}

/// Replaces every self-expanding transform by its generated
/// replacements and records the substitutions; expansion failures are
/// gathered and, if any arose, returned as the phase's errors.
#[verifier::loop_isolation(false)]
pub fn expand_macros(builder: &mut ConfigBuilder) -> (r: Result<OMap<Vec<ComponentKey>>, Vec<String>>)
    ensures
        ({
            let sp = spec_expand_all(
                old(builder).transforms.kv_seq(),
                old(builder).transforms.kv_seq().len() as int,
            );
            &&& trans_entries_match(final(builder).transforms.kv_seq(), sp.0)
            &&& final(builder).sources == old(builder).sources
            &&& final(builder).sinks == old(builder).sinks
            &&& final(builder).tests == old(builder).tests
            &&& match r {
                Ok(expansions) => sp.2.len() == 0 && exp_entries_match(expansions.kv_seq(), sp.1),
                Err(es) => str_views(es@) =~= sp.2 && es@.len() > 0,
            }
        }),
{
    let mut taken: OMap<TransformOuter<String>> = OMap::new();
    core::mem::swap(&mut builder.transforms, &mut taken);
    let ghost kv0 = taken.kv_seq();
    let mut out: OMap<TransformOuter<String>> = OMap::new();
    let mut expansions: OMap<Vec<ComponentKey>> = OMap::new();
    let mut errors: Vec<String> = Vec::new();
    let mut entries = taken.take_entries();
    let ghost n0 = kv0.len();
    let mut idx: usize = 0;
    let n = entries.len();
    while idx < n
        invariant
            n == kv0.len(),
            idx <= n,
            entries@.len() == n - idx,
            forall|j: int|
                0 <= j < entries@.len() ==> ((#[trigger] entries@[j]).0@, entries@[j].1) == kv0[idx
                    + j],
            ({
                let sp = spec_expand_all(kv0, idx as int);
                &&& out.kv_seq().len() == sp.0.len()
                &&& trans_entries_match(out.kv_seq(), sp.0)
                &&& exp_entries_match(expansions.kv_seq(), sp.1)
                &&& str_views(errors@) =~= sp.2
            }),
        decreases n - idx,
    {
        let (key, touter) = entries.remove(0);
        proof {
            assert((key@, touter) == kv0[idx as int]);
        }
        let TransformOuter { inputs, inner } = touter;
        let ghost out_mid = out.kv_seq();
        let ghost exp_mid = expansions.kv_seq();
        expand_cfg(key, inputs, inner, &mut out, &mut expansions, &mut errors);
        idx = idx + 1;
        proof {
            assert(forall|k: int|
                0 <= k < out_mid.len() ==> #[trigger] out.kv_seq()[k] == out_mid[k]);
            assert(forall|k: int|
                0 <= k < exp_mid.len() ==> #[trigger] expansions.kv_seq()[k] == exp_mid[k]);
            let sp_prev = spec_expand_all(kv0, idx - 1);
            let one = spec_expand_cfg(
                kv0[idx - 1].0,
                kv0[idx - 1].1.inputs.views(),
                kv0[idx - 1].1.inner,
            );
            let sp_new = spec_expand_all(kv0, idx as int);
            assert(sp_new.0 == sp_prev.0 + one.0);
            assert(sp_new.1 == sp_prev.1 + one.1);
            assert(sp_new.2 == sp_prev.2 + one.2);
            lemma_trans_match_compose(out_mid, out.kv_seq(), 0, sp_prev.0, one.0);
            lemma_exp_match_compose(exp_mid, expansions.kv_seq(), 0, sp_prev.1, one.1);
            assert(out.kv_seq().skip(0) =~= out.kv_seq());
            assert(expansions.kv_seq().skip(0) =~= expansions.kv_seq());
            assert(str_views(errors@) =~= sp_new.2);
        }
    }
    builder.transforms = out;
    if errors.len() == 0 {
        Ok(expansions)
    } else {
        Err(errors)
    }
}

} // verus!
