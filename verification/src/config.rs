//! The declarative topology description and its compiled form.
//!
//! A `ConfigBuilder` is the raw, user-authored description: sources,
//! transforms and sinks keyed by component, transforms and sinks with
//! raw input-reference strings, plus end-to-end test definitions.  A
//! `Config` is the compiled artifact: the same components with fully
//! resolved inputs, the expansion map, and a per-source delivery
//! acknowledgement verdict.

use vstd::prelude::*;
use crate::id::{ComponentKey, OutputId};
use crate::inputs::{Inputs, push_dedup_view};
use crate::omap::{OMap, seq_insert};

verus! {

/// The data-shape category a port emits or a component accepts.
#[derive(Debug, Clone, Copy, PartialEq, Eq, Structural)]
pub enum DataKind {
    Log,
    Metric,
    Trace,
}

/// A set of data kinds, as acceptance flags.
#[derive(Debug, Clone, Copy, PartialEq, Eq, Structural)]
pub struct KindSet {
    pub log: bool,
    pub metric: bool,
    pub trace: bool,
}

impl KindSet {
    pub open spec fn spec_contains(self, k: DataKind) -> bool {
        match k {
            DataKind::Log => self.log,
            DataKind::Metric => self.metric,
            DataKind::Trace => self.trace,
        }
    }

    pub fn contains(&self, k: DataKind) -> (r: bool)
        ensures
            r == self.spec_contains(k),
    {
        match k {
            DataKind::Log => self.log,
            DataKind::Metric => self.metric,
            DataKind::Trace => self.trace,
        }
    }

    /// Accepts every kind.
    pub fn any() -> (r: Self)
        ensures
            r == (KindSet { log: true, metric: true, trace: true }),
    {
        KindSet { log: true, metric: true, trace: true }
    }

    /// Accepts exactly one kind.
    pub fn only(k: DataKind) -> (r: Self)
        ensures
            forall|k2: DataKind| r.spec_contains(k2) == (k2 == k),
    {
        KindSet {
            log: matches!(k, DataKind::Log),
            metric: matches!(k, DataKind::Metric),
            trace: matches!(k, DataKind::Trace),
        }
    }
}

/// One declared emission point of a component: an optional port name
/// and the kind of data it emits.
#[derive(Debug, Clone, PartialEq)]
pub struct Output {
    pub port: Option<String>,
    pub kind: DataKind,
}

impl Output {
    /// The default (portless) output.
    pub fn default_output(kind: DataKind) -> (r: Self)
        ensures
            r == (Output { port: None::<String>, kind }),
    {
        Output { port: None, kind }
    }
}

/// Static description of a source: what it emits, and which external
/// resources it claims.
#[derive(Debug, Clone, PartialEq)]
pub struct SourceConfig {
    pub outputs: Vec<Output>,
    pub resources: Vec<String>,
}

/// A transform's self-expansion capability: none, a fixed ordered list
/// of replacement transforms, or a failure with its cause.
#[derive(Debug, PartialEq)]
pub enum Expansion {
    Inert,
    Expands(Vec<(ComponentKey, TransformConfig)>),
    Fails(String),
}

/// Static description of a transform: what it accepts, what it emits,
/// and how it expands.
#[derive(Debug, PartialEq)]
pub struct TransformConfig {
    pub input: KindSet,
    pub outputs: Vec<Output>,
    pub expansion: Expansion,
}

/// Static description of a sink: what it accepts, whether it can
/// acknowledge delivery, and which external resources it claims.
#[derive(Debug, Clone, PartialEq)]
pub struct SinkConfig {
    pub input: KindSet,
    pub acks: bool,
    pub resources: Vec<String>,
}

/// A declared source, together with its computed effective delivery
/// acknowledgement verdict (false until propagation runs).
#[derive(Debug, Clone, PartialEq)]
pub struct SourceOuter {
    pub inner: SourceConfig,
    pub effective_ack: bool,
}

/// A declared transform with its input list; the input entry type is a
/// raw string before resolution and an `OutputId` after.
#[derive(Debug, PartialEq)]
pub struct TransformOuter<I> {
    pub inputs: Inputs<I>,
    pub inner: TransformConfig,
}

impl TransformOuter<String> {
    /// Replaces the raw inputs by their resolved form.
    pub fn with_inputs(self, inputs: Inputs<OutputId>) -> (r: TransformOuter<OutputId>)
        ensures
            r.inner == self.inner,
            r.inputs == inputs,
    {
        TransformOuter { inputs, inner: self.inner }
    }
}

/// A declared sink with its input list.
#[derive(Debug, Clone, PartialEq)]
pub struct SinkOuter<I> {
    pub inputs: Inputs<I>,
    pub inner: SinkConfig,
}

impl SinkOuter<String> {
    /// Replaces the raw inputs by their resolved form.
    pub fn with_inputs(self, inputs: Inputs<OutputId>) -> (r: SinkOuter<OutputId>)
        ensures
            r.inner == self.inner,
            r.inputs == inputs,
    {
        SinkOuter { inputs, inner: self.inner }
    }
}

/// An end-to-end test declaration: references into the topology whose
/// outputs the test wants to observe.
#[derive(Debug, Clone, PartialEq)]
pub struct TestDefinition {
    pub name: String,
    pub extract_from: Vec<String>,
}

/// A test with its references resolved against the compiled graph.
#[derive(Debug, PartialEq)]
pub struct ResolvedTest {
    pub name: String,
    pub extract_from: Vec<OutputId>,
}

/// The first `n` of the given string views, in order, with duplicate
/// suppression.
pub open spec fn dedup_views(xs: Seq<Seq<char>>, n: int) -> Seq<Seq<char>>
    decreases n,
{
    if n <= 0 {
        Seq::empty()
    } else {
        push_dedup_view(dedup_views(xs, n - 1), xs[n - 1])
    }
}

/// The raw, user-authored topology description.
#[derive(Debug, PartialEq)]
pub struct ConfigBuilder {
    pub sources: OMap<SourceOuter>,
    pub transforms: OMap<TransformOuter<String>>,
    pub sinks: OMap<SinkOuter<String>>,
    pub tests: Vec<TestDefinition>,
}

impl Default for ConfigBuilder {
    fn default() -> (r: Self)
        ensures
            r.sources.kv_seq() =~= Seq::<(Seq<char>, SourceOuter)>::empty(),
            r.transforms.kv_seq() =~= Seq::<(Seq<char>, TransformOuter<String>)>::empty(),
            r.sinks.kv_seq() =~= Seq::<(Seq<char>, SinkOuter<String>)>::empty(),
            r.tests@ =~= Seq::<TestDefinition>::empty(),
    {
        ConfigBuilder {
            sources: OMap::new(),
            transforms: OMap::new(),
            sinks: OMap::new(),
            tests: Vec::new(),
        }
    }
}

/// The views of a slice of raw reference strings.
pub open spec fn slice_views(ss: Seq<&str>) -> Seq<Seq<char>> {
    ss.map_values(|s: &str| s@)
}

/// Builds an `Inputs` list from raw reference strings, suppressing
/// duplicates in order.
pub fn inputs_from(ss: &[&str]) -> (r: Inputs<String>)
    ensures
        r.views() =~= dedup_views(slice_views(ss@), ss@.len() as int),
{
    let mut r = Inputs::<String>::new();
    let n = ss.len();
    assert(r.views() =~= dedup_views(slice_views(ss@), 0));
    for i in 0..n
        invariant
            n == ss@.len(),
            r.views() =~= dedup_views(slice_views(ss@), i as int),
    {
        let s: &str = ss[i];
        r.extend_one(s.to_owned());
    }
    r
}

impl ConfigBuilder {
    /// Declares a source under the given id.
    pub fn add_source(&mut self, key: &str, source: SourceConfig)
        ensures
            final(self).sources.kv_seq() =~= seq_insert(
                old(self).sources.kv_seq(),
                key@,
                (SourceOuter { inner: source, effective_ack: false }),
            ),
            final(self).transforms == old(self).transforms,
            final(self).sinks == old(self).sinks,
            final(self).tests == old(self).tests,
    {
        let k = ComponentKey::from(key);
        self.sources.insert(k, SourceOuter { inner: source, effective_ack: false });
    }

    /// Declares a transform under the given id, with raw inputs.
    pub fn add_transform(&mut self, key: &str, inputs: &[&str], transform: TransformConfig)
        ensures
            exists|v: TransformOuter<String>|
                {
                    &&& final(self).transforms.kv_seq() =~= seq_insert(
                        old(self).transforms.kv_seq(),
                        key@,
                        v,
                    )
                    &&& v.inner == transform
                    &&& v.inputs.views() =~= dedup_views(slice_views(inputs@), inputs@.len() as int)
                },
            final(self).sources == old(self).sources,
            final(self).sinks == old(self).sinks,
            final(self).tests == old(self).tests,
    {
        let k = ComponentKey::from(key);
        let inp = inputs_from(inputs);
        let v = TransformOuter { inputs: inp, inner: transform };
        let ghost gv = v;
        self.transforms.insert(k, v);
        proof {
            assert(self.transforms.kv_seq() =~= seq_insert(
                old(self).transforms.kv_seq(),
                key@,
                gv,
            ));
            assert(exists|w: TransformOuter<String>|
                {
                    &&& self.transforms.kv_seq() =~= seq_insert(
                        old(self).transforms.kv_seq(),
                        key@,
                        w,
                    )
                    &&& w.inner == transform
                    &&& w.inputs.views() =~= dedup_views(slice_views(inputs@), inputs@.len() as int)
                }) by {
                assert(gv.inner == transform);
            }
        }
    }

    /// Declares a sink under the given id, with raw inputs.
    pub fn add_sink(&mut self, key: &str, inputs: &[&str], sink: SinkConfig)
        ensures
            exists|v: SinkOuter<String>|
                {
                    &&& final(self).sinks.kv_seq() =~= seq_insert(
                        old(self).sinks.kv_seq(),
                        key@,
                        v,
                    )
                    &&& v.inner == sink
                    &&& v.inputs.views() =~= dedup_views(slice_views(inputs@), inputs@.len() as int)
                },
            final(self).sources == old(self).sources,
            final(self).transforms == old(self).transforms,
            final(self).tests == old(self).tests,
    {
        let k = ComponentKey::from(key);
        let inp = inputs_from(inputs);
        let v = SinkOuter { inputs: inp, inner: sink };
        let ghost gv = v;
        self.sinks.insert(k, v);
        proof {
            assert(self.sinks.kv_seq() =~= seq_insert(old(self).sinks.kv_seq(), key@, gv));
            assert(exists|w: SinkOuter<String>|
                {
                    &&& self.sinks.kv_seq() =~= seq_insert(old(self).sinks.kv_seq(), key@, w)
                    &&& w.inner == sink
                    &&& w.inputs.views() =~= dedup_views(slice_views(inputs@), inputs@.len() as int)
                }) by {
                assert(gv.inner == sink);
            }
        }
    }

    /// Declares an end-to-end test.
    pub fn add_test(&mut self, test: TestDefinition)
        ensures
            final(self).tests@ =~= old(self).tests@.push(test),
            final(self).sources == old(self).sources,
            final(self).transforms == old(self).transforms,
            final(self).sinks == old(self).sinks,
    {
        self.tests.push(test);
    }
}

/// The compiled, immutable topology.
#[derive(Debug, PartialEq)]
pub struct Config {
    pub sources: OMap<SourceOuter>,
    pub transforms: OMap<TransformOuter<OutputId>>,
    pub sinks: OMap<SinkOuter<OutputId>>,
    pub tests: Vec<ResolvedTest>,
    pub expansions: OMap<Vec<ComponentKey>>,
}

} // verus!
