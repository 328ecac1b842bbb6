//! Component keys and output identifiers.
//!
//! A `ComponentKey` names one declared source, transform or sink.  An
//! `OutputId` names one emission point of a component: the component
//! itself for the single default output, or the component together with
//! a named port, rendered as `component.port`.

use vstd::prelude::*;
use vstd::string::StringExecFns;

verus! {

/// Unique identifier of a declared component.
#[derive(Debug, Clone, PartialEq, Eq, Hash)]
pub struct ComponentKey {
    pub id: String,
}

impl View for ComponentKey {
    type V = Seq<char>;

    open spec fn view(&self) -> Seq<char> {
        self.id@
    }
}

impl ComponentKey {
    /// Builds a key from its textual id.
    pub fn from(s: &str) -> (r: Self)
        ensures
            r@ == s@,
    {
        ComponentKey { id: s.to_owned() }
    }

    /// The textual id of the component.
    pub fn id(&self) -> (r: &str)
        ensures
            r@ == self@,
    {
        self.id.as_str()
    }

    /// A copy of the key whose value is known to equal the original.
    pub fn dup(&self) -> (r: Self)
        ensures
            r == *self,
    {
        ComponentKey { id: self.id.clone() }
    }
}

/// Executable equality on keys, reflected as equality of their views.
pub fn key_eq(a: &ComponentKey, b: &ComponentKey) -> (r: bool)
    ensures
        r == (a@ == b@),
{
    a.id == b.id
}

/// The view of an optional port name.
pub open spec fn port_view(p: &Option<String>) -> Option<Seq<char>> {
    match p {
        Some(s) => Some(s@),
        None => None,
    }
}

/// An emission point: a component together with an optional named port.
#[derive(Debug, Clone, PartialEq, Eq, Hash)]
pub struct OutputId {
    pub component: ComponentKey,
    pub port: Option<String>,
}

impl View for OutputId {
    type V = (Seq<char>, Option<Seq<char>>);

    open spec fn view(&self) -> (Seq<char>, Option<Seq<char>>) {
        (self.component@, port_view(&self.port))
    }
}

/// The string rendering of an emission point: `component` for the
/// default output, `component.port` for a named one.
pub open spec fn spec_render(component: Seq<char>, port: Option<Seq<char>>) -> Seq<char> {
    match port {
        None => component,
        Some(p) => component + seq!['.'] + p,
    }
}

impl OutputId {
    /// Builds the default (portless) output of a component.
    pub fn from_key(component: ComponentKey) -> (r: Self)
        ensures
            r@ == (component@, None::<Seq<char>>),
    {
        OutputId { component, port: None }
    }

    /// A copy of the output id whose value is known to equal the original.
    pub fn dup(&self) -> (r: Self)
        ensures
            r == *self,
    {
        OutputId {
            component: self.component.dup(),
            port: match &self.port {
                Some(p) => Some(p.clone()),
                None => None,
            },
        }
    }

    /// Renders the emission point as `component` or `component.port`.
    pub fn render(&self) -> (r: String)
        ensures
            r@ == spec_render(self.component@, port_view(&self.port)),
    {
        match &self.port {
            None => self.component.id.clone(),
            Some(p) => {
                proof {
                    reveal_strlit(".");
                }
                let dot: String = String::from_str(".");
                let joined = self.component.id.clone().concat(dot.as_str());
                assert(joined@ =~= self.component@ + seq!['.']);
                let full = joined.concat(p.as_str());
                assert(full@ =~= self.component@ + seq!['.'] + p@);
                full
            },
        }
    }
}

/// Executable equality on optional port names, reflected as equality
/// of their views.
pub fn port_eq(a: &Option<String>, b: &Option<String>) -> (r: bool)
    ensures
        r == (port_view(a) == port_view(b)),
{
    match (a, b) {
        (None, None) => true,
        (Some(x), Some(y)) => *x == *y,
        _ => false,
    }
}

/// Executable equality on output ids, reflected as view equality.
pub fn output_id_eq(a: &OutputId, b: &OutputId) -> (r: bool)
    ensures
        r == (a@ == b@),
{
    if !key_eq(&a.component, &b.component) {
        return false;
    }
    match (&a.port, &b.port) {
        (None, None) => true,
        (Some(x), Some(y)) => *x == *y,
        _ => false,
    }
}

} // verus!
