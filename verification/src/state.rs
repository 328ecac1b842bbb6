//! Compile-time and run-time variable environments of the embedded
//! remap language.
//!
//! A `LocalEnv` tracks what the compiler knows of each variable in the
//! current lexical scope; a `Runtime` tracks the values the variables
//! hold while a program runs.  Both are insertion-ordered maps keyed
//! by identifier, each key held at most once.

use vstd::prelude::*;

verus! {

/// A variable identifier.
#[derive(Debug, Clone, PartialEq, Eq, Hash)]
pub struct Ident {
    pub name: String,
}

impl View for Ident {
    type V = Seq<char>;

    open spec fn view(&self) -> Seq<char> {
        self.name@
    }
}

impl Ident {
    /// Builds an identifier from its text.
    pub fn from(s: &str) -> (r: Self)
        ensures
            r@ == s@,
    {
        Ident { name: s.to_owned() }
    }

    /// A copy whose value is known to equal the original.
    pub fn dup(&self) -> (r: Self)
        ensures
            r == *self,
    {
        Ident { name: self.name.clone() }
    }
}

/// Executable identifier equality, reflected as view equality.
pub fn ident_eq(a: &Ident, b: &Ident) -> (r: bool)
    ensures
        r == (a@ == b@),
{
    a.name == b.name
}

/// A value a variable can hold at run time.
#[derive(Debug, Clone, PartialEq)]
pub enum Value {
    Null,
    Boolean(bool),
    Integer(i64),
    Bytes(Vec<u8>),
}

/// The type categories a variable's value may fall in.
#[derive(Debug, Clone, Copy, PartialEq, Eq, Structural)]
pub struct TypeFlags {
    pub bytes: bool,
    pub integer: bool,
    pub boolean: bool,
    pub null: bool,
}

impl TypeFlags {
    /// The union of two sets of type categories.
    pub fn union(self, other: Self) -> (r: Self)
        ensures
            r == (TypeFlags {
                bytes: self.bytes || other.bytes,
                integer: self.integer || other.integer,
                boolean: self.boolean || other.boolean,
                null: self.null || other.null,
            }),
    {
        TypeFlags {
            bytes: self.bytes || other.bytes,
            integer: self.integer || other.integer,
            boolean: self.boolean || other.boolean,
            null: self.null || other.null,
        }
    }
}

/// The inferred type of an expression: its possible categories and
/// whether evaluating it can fail.
#[derive(Debug, Clone, Copy, PartialEq, Eq, Structural)]
pub struct TypeDef {
    pub fallible: bool,
    pub kind: TypeFlags,
}

/// What the compiler knows of one variable.
#[derive(Debug, Clone, PartialEq)]
pub struct Details {
    pub type_def: TypeDef,
    pub value: Option<Value>,
}

impl Details {
    /// The union of two sources of knowledge, as after a conditional
    /// whose branches disagree: the type is the union of the options,
    /// and no single known constant survives.
    pub fn merge(&self, other: &Details) -> (r: Details)
        ensures
            r.type_def.fallible == (self.type_def.fallible || other.type_def.fallible),
            r.type_def.kind == (TypeFlags {
                bytes: self.type_def.kind.bytes || other.type_def.kind.bytes,
                integer: self.type_def.kind.integer || other.type_def.kind.integer,
                boolean: self.type_def.kind.boolean || other.type_def.kind.boolean,
                null: self.type_def.kind.null || other.type_def.kind.null,
            }),
            r.value is None,
    {
        Details {
            type_def: TypeDef {
                fallible: self.type_def.fallible || other.type_def.fallible,
                kind: self.type_def.kind.union(other.type_def.kind),
            },
            value: None,
        }
    }
}

/// The first value bound to `k` in an identifier-keyed entry list.
pub open spec fn ib_get<V>(s: Seq<(Ident, V)>, k: Seq<char>) -> Option<V>
    decreases s.len(),
{
    if s.len() == 0 {
        None
    } else if s[0].0@ == k {
        Some(s[0].1)
    } else {
        ib_get(s.drop_first(), k)
    }
}

pub proof fn lemma_ib_get_none<V>(s: Seq<(Ident, V)>, k: Seq<char>)
    requires
        forall|j: int| 0 <= j < s.len() ==> (#[trigger] s[j]).0@ != k,
    ensures
        ib_get(s, k) is None,
    decreases s.len(),
{
    if s.len() > 0 {
        lemma_ib_get_none(s.drop_first(), k);
    }
}

pub proof fn lemma_ib_get_found<V>(s: Seq<(Ident, V)>, k: Seq<char>, i: int)
    requires
        0 <= i < s.len(),
        s[i].0@ == k,
        forall|j: int| 0 <= j < i ==> (#[trigger] s[j]).0@ != k,
    ensures
        ib_get(s, k) == Some(s[i].1),
    decreases i,
{
    if i > 0 {
        lemma_ib_get_found(s.drop_first(), k, i - 1);
    }
}

/// Each identifier is bound at most once.
pub open spec fn ib_distinct<V>(s: Seq<(Ident, V)>) -> bool {
    forall|i: int, j: int| 0 <= i < j < s.len() ==> (#[trigger] s[i]).0@ != (#[trigger] s[j]).0@
}

/// Removing an entry keyed otherwise leaves a lookup unchanged.
pub proof fn lemma_ib_remove<V>(s: Seq<(Ident, V)>, i: int, k2: Seq<char>)
    requires
        0 <= i < s.len(),
        s[i].0@ != k2,
    ensures
        ib_get(s.remove(i), k2) == ib_get(s, k2),
    decreases i,
{
    if i == 0 {
        assert(s.remove(0) =~= s.drop_first());
    } else {
        if s[0].0@ == k2 {
            assert(s.remove(i)[0] == s[0]);
        } else {
            assert(s.remove(i).drop_first() =~= s.drop_first().remove(i - 1));
            lemma_ib_remove(s.drop_first(), i - 1, k2);
            assert(s.remove(i)[0] == s[0]);
        }
    }
}

/// Local environment, limited to a given scope.
#[derive(Debug, Clone, PartialEq)]
pub struct LocalEnv {
    pub bindings: Vec<(Ident, Details)>,
}

impl LocalEnv {
    pub open spec fn spec_get(&self, k: Seq<char>) -> Option<Details> {
        ib_get(self.bindings@, k)
    }

    /// Each identifier bound at most once; every constructor and
    /// mutator of the scope preserves this.
    pub open spec fn wf(&self) -> bool {
        ib_distinct(self.bindings@)
    }

    pub fn new() -> (r: Self)
        ensures
            r.bindings@ =~= Seq::<(Ident, Details)>::empty(),
    {
        LocalEnv { bindings: Vec::new() }
    }

    /// The index of the binding for the identifier, if any.
    fn find(&self, ident: &Ident) -> (r: Option<usize>)
        ensures
            match r {
                Some(i) => {
                    &&& 0 <= i < self.bindings@.len()
                    &&& self.bindings@[i as int].0@ == ident@
                    &&& forall|j: int| 0 <= j < i ==> (#[trigger] self.bindings@[j]).0@ != ident@
                    &&& self.spec_get(ident@) == Some(self.bindings@[i as int].1)
                },
                None => self.spec_get(ident@) is None && forall|j: int|
                    0 <= j < self.bindings@.len() ==> (#[trigger] self.bindings@[j]).0@ != ident@,
            },
    {
        let n = self.bindings.len();
        for i in 0..n
            invariant
                n == self.bindings@.len(),
                forall|j: int| 0 <= j < i ==> (#[trigger] self.bindings@[j]).0@ != ident@,
        {
            if ident_eq(&self.bindings[i].0, ident) {
                proof {
                    lemma_ib_get_found(self.bindings@, ident@, i as int);
                }
                return Some(i);
            }
        }
        proof {
            lemma_ib_get_none(self.bindings@, ident@);
        }
        None
    }

    /// The identifiers bound in the scope, in insertion order.
    pub fn variable_idents(&self) -> (r: Vec<Ident>)
        ensures
            r@.len() == self.bindings@.len(),
            forall|i: int| 0 <= i < r@.len() ==> (#[trigger] r@[i]) == self.bindings@[i].0,
    {
        let mut r: Vec<Ident> = Vec::new();
        let n = self.bindings.len();
        for i in 0..n
            invariant
                n == self.bindings@.len(),
                r@.len() == i,
                forall|j: int| 0 <= j < i ==> (#[trigger] r@[j]) == self.bindings@[j].0,
        {
            r.push(self.bindings[i].0.dup());
        }
        r
    }

    /// What the scope knows of the variable.
    pub fn variable(&self, ident: &Ident) -> (r: Option<&Details>)
        ensures
            match r {
                Some(d) => self.spec_get(ident@) == Some(*d),
                None => self.spec_get(ident@) is None,
            },
    {
        match self.find(ident) {
            Some(i) => Some(&self.bindings[i].1),
            None => None,
        }
    }

    /// Binds the identifier, replacing older knowledge in place.
    pub fn insert_variable(&mut self, ident: Ident, details: Details)
        ensures
            final(self).spec_get(ident@) == Some(details),
            forall|k: Seq<char>| k != ident@ ==> final(self).spec_get(k) == old(self).spec_get(k),
            final(self).bindings@.len() <= old(self).bindings@.len() + 1,
            old(self).wf() ==> final(self).wf(),
    {
        let ghost pre = self.bindings@;
        match self.find(&ident) {
            Some(i) => {
                let k = self.bindings[i].0.dup();
                vstd::pervasive::VecAdditionalExecFns::set(&mut self.bindings, i, (k, details));
                proof {
                    lemma_ib_replace(pre, self.bindings@, ident@, i as int);
                }
            },
            None => {
                let ghost iv = ident@;
                self.bindings.push((ident, details));
                proof {
                    assert forall|k2: Seq<char>| k2 != iv implies ib_get(self.bindings@, k2)
                        == ib_get(pre, k2) by {
                        lemma_ib_tail(pre, self.bindings@, k2);
                    }
                    lemma_ib_get_found(self.bindings@, iv, pre.len() as int);
                }
            },
        }
    }

    /// Drops the binding, handing back what was known.  In a
    /// well-formed scope the identifier is unbound afterwards and
    /// every other binding is untouched.
    pub fn remove_variable(&mut self, ident: &Ident) -> (r: Option<Details>)
        ensures
            r == old(self).spec_get(ident@),
            final(self).bindings@.len() <= old(self).bindings@.len(),
            forall|k: Seq<char>| k != ident@ ==> final(self).spec_get(k) == old(self).spec_get(k),
            old(self).wf() ==> final(self).spec_get(ident@) is None && final(self).wf(),
    {
        let ghost pre = self.bindings@;
        match self.find(ident) {
            Some(i) => {
                let (_, d) = self.bindings.remove(i);
                proof {
                    assert(self.bindings@ =~= pre.remove(i as int));
                    assert forall|k: Seq<char>| k != ident@ implies ib_get(self.bindings@, k)
                        == ib_get(pre, k) by {
                        lemma_ib_remove(pre, i as int, k);
                    }
                    if ib_distinct(pre) {
                        assert forall|j: int|
                            0 <= j < self.bindings@.len() implies (#[trigger] self.bindings@[j]).0@
                            != ident@ by {
                            if j < i {
                                assert(self.bindings@[j] == pre[j]);
                            } else {
                                assert(self.bindings@[j] == pre[j + 1]);
                            }
                        }
                        lemma_ib_get_none(self.bindings@, ident@);
                    }
                }
                Some(d)
            },
            None => None,
        }
    }

    /// Any state the child scope modified that was part of the parent
    /// is copied back to the parent scope.
    pub fn apply_child_scope(self, child: Self) -> (r: Self)
        ensures
            r.bindings@.len() == self.bindings@.len(),
            forall|i: int|
                0 <= i < r.bindings@.len() ==> (#[trigger] r.bindings@[i]).0
                    == self.bindings@[i].0,
            forall|i: int|
                0 <= i < r.bindings@.len() ==> details_eq(
                    (#[trigger] r.bindings@[i]).1,
                    (match child.spec_get(self.bindings@[i].0@) {
                        Some(d) => d,
                        None => self.bindings@[i].1,
                    }),
                ),
    {
        let mut out = self;
        let n = out.bindings.len();
        let ghost base = out.bindings@;
        for i in 0..n
            invariant
                n == out.bindings@.len(),
                base.len() == n,
                forall|j: int| 0 <= j < n ==> (#[trigger] out.bindings@[j]).0 == base[j].0,
                forall|j: int|
                    0 <= j < i ==> details_eq(
                        (#[trigger] out.bindings@[j]).1,
                        (match child.spec_get(base[j].0@) {
                            Some(d) => d,
                            None => base[j].1,
                        }),
                    ),
                forall|j: int| i <= j < n ==> (#[trigger] out.bindings@[j]).1 == base[j].1,
        {
            match child.variable(&out.bindings[i].0) {
                Some(d) => {
                    let nd = Details {
                        type_def: d.type_def,
                        value: match &d.value {
                            Some(v) => Some(v.dup()),
                            None => None,
                        },
                    };
                    proof {
                        assert(details_eq(nd, child.spec_get(base[i as int].0@)->Some_0));
                    }
                    let k = out.bindings[i].0.dup();
                    vstd::pervasive::VecAdditionalExecFns::set(&mut out.bindings, i, (k, nd));
                },
                None => {},
            }
        }
        out
    }

    /// Merges two local environments: a variable the other scope also
    /// knows becomes the union of the two views, as when branches of a
    /// conditional rejoin.
    pub fn merge(self, other: Self) -> (r: Self)
        ensures
            r.bindings@.len() == self.bindings@.len(),
            forall|i: int|
                0 <= i < r.bindings@.len() ==> (#[trigger] r.bindings@[i]).0
                    == self.bindings@[i].0,
            forall|i: int|
                0 <= i < r.bindings@.len() ==> (#[trigger] r.bindings@[i]).1 == (match other.spec_get(
                    self.bindings@[i].0@,
                ) {
                    Some(d) => Details {
                        type_def: TypeDef {
                            fallible: self.bindings@[i].1.type_def.fallible || d.type_def.fallible,
                            kind: TypeFlags {
                                bytes: self.bindings@[i].1.type_def.kind.bytes
                                    || d.type_def.kind.bytes,
                                integer: self.bindings@[i].1.type_def.kind.integer
                                    || d.type_def.kind.integer,
                                boolean: self.bindings@[i].1.type_def.kind.boolean
                                    || d.type_def.kind.boolean,
                                null: self.bindings@[i].1.type_def.kind.null
                                    || d.type_def.kind.null,
                            },
                        },
                        value: None,
                    },
                    None => self.bindings@[i].1,
                }),
    {
        let mut out = self;
        let n = out.bindings.len();
        let ghost base = out.bindings@;
        for i in 0..n
            invariant
                n == out.bindings@.len(),
                base.len() == n,
                forall|j: int| 0 <= j < n ==> (#[trigger] out.bindings@[j]).0 == base[j].0,
                forall|j: int|
                    0 <= j < i ==> (#[trigger] out.bindings@[j]).1 == (match other.spec_get(
                        base[j].0@,
                    ) {
                        Some(d) => Details {
                            type_def: TypeDef {
                                fallible: base[j].1.type_def.fallible || d.type_def.fallible,
                                kind: TypeFlags {
                                    bytes: base[j].1.type_def.kind.bytes || d.type_def.kind.bytes,
                                    integer: base[j].1.type_def.kind.integer
                                        || d.type_def.kind.integer,
                                    boolean: base[j].1.type_def.kind.boolean
                                        || d.type_def.kind.boolean,
                                    null: base[j].1.type_def.kind.null || d.type_def.kind.null,
                                },
                            },
                            value: None,
                        },
                        None => base[j].1,
                    }),
                forall|j: int| i <= j < n ==> (#[trigger] out.bindings@[j]).1 == base[j].1,
        {
            match other.variable(&out.bindings[i].0) {
                Some(d) => {
                    let nd = out.bindings[i].1.merge(d);
                    let k = out.bindings[i].0.dup();
                    vstd::pervasive::VecAdditionalExecFns::set(&mut out.bindings, i, (k, nd));
                },
                None => {},
            }
        }
        out
    }
}

pub proof fn lemma_ib_replace<V>(pre: Seq<(Ident, V)>, post: Seq<(Ident, V)>, k: Seq<char>, i: int)
    requires
        0 <= i < pre.len(),
        post.len() == pre.len(),
        pre[i].0@ == k,
        forall|j: int| 0 <= j < i ==> (#[trigger] pre[j]).0@ != k,
        forall|j: int| 0 <= j < pre.len() ==> (#[trigger] post[j]).0@ == pre[j].0@,
        forall|j: int| 0 <= j < pre.len() && j != i ==> #[trigger] post[j] == pre[j],
        post[i].0@ == k,
    ensures
        ib_get(post, k) == Some(post[i].1),
        forall|k2: Seq<char>| k2 != k ==> ib_get(post, k2) == ib_get(pre, k2),
    decreases pre.len(),
{
    assert forall|j: int| 0 <= j < i implies (#[trigger] post[j]).0@ != k by {
        assert(pre[j].0@ != k);
    }
    lemma_ib_get_found(post, k, i);
    assert forall|k2: Seq<char>| k2 != k implies ib_get(post, k2) == ib_get(pre, k2) by {
        lemma_ib_frame(pre, post, k, k2);
    }
}

pub proof fn lemma_ib_frame<V>(
    pre: Seq<(Ident, V)>,
    post: Seq<(Ident, V)>,
    k: Seq<char>,
    k2: Seq<char>,
)
    requires
        post.len() == pre.len(),
        k2 != k,
        forall|j: int| 0 <= j < pre.len() ==> (#[trigger] post[j]).0@ == pre[j].0@,
        forall|j: int| 0 <= j < pre.len() && (#[trigger] pre[j]).0@ != k ==> post[j] == pre[j],
    ensures
        ib_get(post, k2) == ib_get(pre, k2),
    decreases pre.len(),
{
    if pre.len() > 0 {
        assert(post[0].0@ == pre[0].0@);
        if pre[0].0@ == k2 {
            assert(pre[0].0@ != k);
            assert(post[0] == pre[0]);
        } else {
            assert(forall|j: int|
                0 <= j < pre.drop_first().len() ==> (#[trigger] post.drop_first()[j]) == post[j
                    + 1] && pre.drop_first()[j] == pre[j + 1]);
            lemma_ib_frame(pre.drop_first(), post.drop_first(), k, k2);
        }
    }
}

/// Value equality up to byte contents.
pub open spec fn val_eq(a: Value, b: Value) -> bool {
    match (a, b) {
        (Value::Null, Value::Null) => true,
        (Value::Boolean(x), Value::Boolean(y)) => x == y,
        (Value::Integer(x), Value::Integer(y)) => x == y,
        (Value::Bytes(x), Value::Bytes(y)) => x@ =~= y@,
        _ => false,
    }
}

/// Optional-value equality up to byte contents.
pub open spec fn opt_val_eq(a: Option<Value>, b: Option<Value>) -> bool {
    match (a, b) {
        (Option::None, Option::None) => true,
        (Option::Some(x), Option::Some(y)) => val_eq(x, y),
        _ => false,
    }
}

/// Knowledge equality up to byte contents.
pub open spec fn details_eq(a: Details, b: Details) -> bool {
    a.type_def == b.type_def && opt_val_eq(a.value, b.value)
}

impl Value {
    /// A copy holding the same value.
    pub fn dup(&self) -> (r: Self)
        ensures
            val_eq(r, *self),
    {
        match self {
            Value::Null => Value::Null,
            Value::Boolean(b) => Value::Boolean(*b),
            Value::Integer(i) => Value::Integer(*i),
            Value::Bytes(bs) => {
                let mut out: Vec<u8> = Vec::new();
                let n = bs.len();
                for i in 0..n
                    invariant
                        n == bs@.len(),
                        out@.len() == i,
                        forall|j: int| 0 <= j < i ==> out@[j] == bs@[j],
                {
                    out.push(bs[i]);
                }
                proof {
                    assert(out@ =~= bs@);
                }
                Value::Bytes(out)
            },
        }
    }
}

/// The state used at runtime to track changes as they happen.
#[derive(Debug, PartialEq)]
pub struct Runtime {
    pub variables: Vec<(Ident, Value)>,
}

impl Runtime {
    pub open spec fn spec_get(&self, k: Seq<char>) -> Option<Value> {
        ib_get(self.variables@, k)
    }

    /// Each variable held at most once; every constructor and mutator
    /// preserves this.
    pub open spec fn wf(&self) -> bool {
        ib_distinct(self.variables@)
    }

    pub fn new() -> (r: Self)
        ensures
            r.variables@ =~= Seq::<(Ident, Value)>::empty(),
    {
        Runtime { variables: Vec::new() }
    }

    /// Whether no variable holds a value.
    pub fn is_empty(&self) -> (r: bool)
        ensures
            r == (self.variables@.len() == 0),
    {
        self.variables.len() == 0
    }

    /// Forgets every variable.
    pub fn clear(&mut self)
        ensures
            final(self).variables@ =~= Seq::<(Ident, Value)>::empty(),
    {
        self.variables.clear();
    }

    /// The index of the binding for the identifier, if any.
    fn find(&self, ident: &Ident) -> (r: Option<usize>)
        ensures
            match r {
                Some(i) => {
                    &&& 0 <= i < self.variables@.len()
                    &&& self.variables@[i as int].0@ == ident@
                    &&& forall|j: int| 0 <= j < i ==> (#[trigger] self.variables@[j]).0@ != ident@
                    &&& self.spec_get(ident@) == Some(self.variables@[i as int].1)
                },
                None => self.spec_get(ident@) is None && forall|j: int|
                    0 <= j < self.variables@.len() ==> (#[trigger] self.variables@[j]).0@ != ident@,
            },
    {
        let n = self.variables.len();
        for i in 0..n
            invariant
                n == self.variables@.len(),
                forall|j: int| 0 <= j < i ==> (#[trigger] self.variables@[j]).0@ != ident@,
        {
            if ident_eq(&self.variables[i].0, ident) {
                proof {
                    lemma_ib_get_found(self.variables@, ident@, i as int);
                }
                return Some(i);
            }
        }
        proof {
            lemma_ib_get_none(self.variables@, ident@);
        }
        None
    }

    /// The value stored in the variable.
    pub fn variable(&self, ident: &Ident) -> (r: Option<&Value>)
        ensures
            match r {
                Some(v) => self.spec_get(ident@) == Some(*v),
                None => self.spec_get(ident@) is None,
            },
    {
        match self.find(ident) {
            Some(i) => Some(&self.variables[i].1),
            None => None,
        }
    }

    /// A mutable borrow of the value stored in the variable.  Writing
    /// through the borrow rebinds the identifier to the written value
    /// in place and touches nothing else: the final state is the old
    /// one with that single entry's value replaced (lookup facts
    /// follow by `lemma_ib_replace`).
    pub fn variable_mut(&mut self, ident: &Ident) -> (r: Option<&mut Value>)
        ensures
            old(self).spec_get(ident@) is None ==> r is None && *final(self) == *old(self),
            old(self).spec_get(ident@) matches Some(v0) ==> (r matches Some(p) && *p == v0
                && exists|i: int|
                {
                    &&& 0 <= i < old(self).variables@.len()
                    &&& (#[trigger] old(self).variables@[i]).0@ == ident@
                    &&& (forall|j: int| 0 <= j < i ==> old(self).variables@[j].0@ != ident@)
                    &&& final(self).variables@ == old(self).variables@.update(
                        i,
                        (old(self).variables@[i].0, *final(p)),
                    )
                }),
    {
        match self.find(ident) {
            Some(i) => {
                let p = &mut self.variables[i].1;
                Some(p)
            },
            None => None,
        }
    }

    /// Stores a value in the variable, replacing any older one.
    pub fn insert_variable(&mut self, ident: Ident, value: Value)
        ensures
            final(self).spec_get(ident@) == Some(value),
            forall|k: Seq<char>| k != ident@ ==> final(self).spec_get(k) == old(self).spec_get(k),
    {
        let ghost pre = self.variables@;
        match self.find(&ident) {
            Some(i) => {
                let k = self.variables[i].0.dup();
                vstd::pervasive::VecAdditionalExecFns::set(&mut self.variables, i, (k, value));
                proof {
                    lemma_ib_replace(pre, self.variables@, ident@, i as int);
                }
            },
            None => {
                self.variables.push((ident, value));
                proof {
                    assert forall|k2: Seq<char>| k2 != ident@ implies ib_get(
                        self.variables@,
                        k2,
                    ) == ib_get(pre, k2) by {
                        lemma_ib_tail(pre, self.variables@, k2);
                    }
                    lemma_ib_get_found(self.variables@, ident@, pre.len() as int);
                }
            },
        }
    }

    /// Drops the variable.  In a well-formed state it is unbound
    /// afterwards and every other variable is untouched.
    pub fn remove_variable(&mut self, ident: &Ident)
        ensures
            final(self).variables@.len() <= old(self).variables@.len(),
            forall|k: Seq<char>| k != ident@ ==> final(self).spec_get(k) == old(self).spec_get(k),
            old(self).wf() ==> final(self).spec_get(ident@) is None && final(self).wf(),
    {
        let ghost pre = self.variables@;
        match self.find(ident) {
            Some(i) => {
                let _ = self.variables.remove(i);
                proof {
                    assert(self.variables@ =~= pre.remove(i as int));
                    assert forall|k: Seq<char>| k != ident@ implies ib_get(self.variables@, k)
                        == ib_get(pre, k) by {
                        lemma_ib_remove(pre, i as int, k);
                    }
                    if ib_distinct(pre) {
                        assert forall|j: int|
                            0 <= j < self.variables@.len() implies (#[trigger] self.variables@[j]).0@
                            != ident@ by {
                            if j < i {
                                assert(self.variables@[j] == pre[j]);
                            } else {
                                assert(self.variables@[j] == pre[j + 1]);
                            }
                        }
                        lemma_ib_get_none(self.variables@, ident@);
                    }
                }
            },
            None => {},
        }
    }

    /// Stores a value, handing back the one it replaces.
    pub fn swap_variable(&mut self, ident: Ident, value: Value) -> (r: Option<Value>)
        ensures
            opt_val_eq(r, old(self).spec_get(ident@)),
            final(self).spec_get(ident@) == Some(value),
            forall|k: Seq<char>| k != ident@ ==> final(self).spec_get(k) == old(self).spec_get(k),
    {
        let ghost pre = self.variables@;
        match self.find(&ident) {
            Some(i) => {
                let k = self.variables[i].0.dup();
                let old_val = self.variables[i].1.dup();
                vstd::pervasive::VecAdditionalExecFns::set(&mut self.variables, i, (k, value));
                proof {
                    lemma_ib_replace(pre, self.variables@, ident@, i as int);
                }
                Some(old_val)
            },
            None => {
                self.variables.push((ident, value));
                proof {
                    assert forall|k2: Seq<char>| k2 != ident@ implies ib_get(
                        self.variables@,
                        k2,
                    ) == ib_get(pre, k2) by {
                        lemma_ib_tail(pre, self.variables@, k2);
                    }
                    lemma_ib_get_found(self.variables@, ident@, pre.len() as int);
                }
                None
            },
        }
    }
}

pub proof fn lemma_ib_tail<V>(pre: Seq<(Ident, V)>, post: Seq<(Ident, V)>, k2: Seq<char>)
    requires
        post.len() == pre.len() + 1,
        forall|j: int| 0 <= j < pre.len() ==> #[trigger] post[j] == pre[j],
        post[post.len() - 1].0@ != k2,
    ensures
        ib_get(post, k2) == ib_get(pre, k2),
    decreases pre.len(),
{
    if pre.len() == 0 {
    } else {
        if pre[0].0@ == k2 {
        } else {
            assert(forall|j: int|
                0 <= j < pre.drop_first().len() ==> (#[trigger] post.drop_first()[j]) == post[j
                    + 1] && pre.drop_first()[j] == pre[j + 1]);
            lemma_ib_tail(pre.drop_first(), post.drop_first(), k2);
        }
    }
}

/// Which tree a read-only path applies to.
#[derive(Debug, Clone, Copy, PartialEq, Eq, Structural)]
pub enum PathRoot {
    Event,
    Metadata,
}

/// One field path, as its segment names.
#[derive(Debug, Clone, PartialEq)]
pub struct FieldPath {
    pub segments: Vec<String>,
}

impl FieldPath {
    /// The view of the path: its segment texts.
    pub open spec fn views(&self) -> Seq<Seq<char>> {
        self.segments@.map_values(|s: String| s@)
    }

    /// The root path, with no segments.
    pub fn root() -> (r: Self)
        ensures
            r.views() =~= Seq::<Seq<char>>::empty(),
    {
        FieldPath { segments: Vec::new() }
    }

    /// Whether this path begins with every segment of `prefix`.
    pub fn starts_with(&self, prefix: &FieldPath) -> (r: bool)
        ensures
            r == (prefix.views().len() <= self.views().len() && prefix.views()
                =~= self.views().take(prefix.views().len() as int)),
    {
        let pn = prefix.segments.len();
        let sn = self.segments.len();
        if pn > sn {
            return false;
        }
        for i in 0..pn
            invariant
                pn <= sn,
                pn == prefix.views().len(),
                sn == self.views().len(),
                forall|j: int| 0 <= j < i ==> prefix.views()[j] == self.views()[j],
        {
            if !(self.segments[i] == prefix.segments[i]) {
                proof {
                    assert(prefix.views()[i as int] != self.views()[i as int]);
                    assert(self.views().take(pn as int)[i as int] == self.views()[i as int]);
                }
                return false;
            }
        }
        proof {
            assert(prefix.views() =~= self.views().take(pn as int));
        }
        true
    }
}

/// A path the program must not assign through.
#[derive(Debug, Clone, PartialEq)]
pub struct ReadOnlyPath {
    pub path: FieldPath,
    pub recursive: bool,
    pub root: PathRoot,
}

/// A lexical scope's external target: its inferred type and the paths
/// that are read only.
#[derive(Debug, Clone, PartialEq)]
pub struct ExternalEnv {
    pub target: Details,
    pub read_only_paths: Vec<ReadOnlyPath>,
}

/// When a registered read-only path forbids writing through `path`.
pub open spec fn spec_blocks(entry: ReadOnlyPath, path: &FieldPath, root: PathRoot) -> bool {
    &&& entry.root == root
    &&& {
        ||| (path.views().len() <= entry.path.views().len() && path.views()
            =~= entry.path.views().take(path.views().len() as int))
        ||| (entry.recursive && entry.path.views().len() <= path.views().len()
            && entry.path.views() =~= path.views().take(entry.path.views().len() as int))
        ||| entry.path.views() =~= path.views()
    }
}

impl ExternalEnv {
    /// Creates a new external environment that starts with the given
    /// knowledge of the target.
    pub fn new_with_kind(kind: TypeDef) -> (r: Self)
        ensures
            r.target == (Details { type_def: kind, value: None::<Value> }),
            r.read_only_paths@.len() == 0,
    {
        ExternalEnv {
            target: Details { type_def: kind, value: None },
            read_only_paths: Vec::new(),
        }
    }

    /// The inferred type of the external target.
    pub fn target_kind(&self) -> (r: &TypeDef)
        ensures
            *r == self.target.type_def,
    {
        &self.target.type_def
    }

    /// Whether assigning through the path is forbidden: some read-only
    /// entry of the same root covers it — as an ancestor of a
    /// read-only path, under a recursive read-only prefix, or exactly.
    pub fn is_read_only_path(&self, path: &FieldPath, root: PathRoot) -> (r: bool)
        ensures
            r == (exists|i: int|
                0 <= i < self.read_only_paths@.len() && spec_blocks(
                    #[trigger] self.read_only_paths@[i],
                    path,
                    root,
                )),
    {
        let n = self.read_only_paths.len();
        for i in 0..n
            invariant
                n == self.read_only_paths@.len(),
                forall|j: int|
                    0 <= j < i ==> !spec_blocks(#[trigger] self.read_only_paths@[j], path, root),
        {
            let entry = &self.read_only_paths[i];
            let same_root = match (entry.root, root) {
                (PathRoot::Event, PathRoot::Event) => true,
                (PathRoot::Metadata, PathRoot::Metadata) => true,
                _ => false,
            };
            if same_root {
                if entry.path.starts_with(path) {
                    proof {
                        assert(spec_blocks(self.read_only_paths@[i as int], path, root));
                    }
                    return true;
                }
                if entry.recursive && path.starts_with(&entry.path) {
                    proof {
                        assert(spec_blocks(self.read_only_paths@[i as int], path, root));
                    }
                    return true;
                }
                if path.starts_with(&entry.path) && entry.path.starts_with(path) {
                    proof {
                        assert(entry.path.views() =~= path.views());
                        assert(spec_blocks(self.read_only_paths@[i as int], path, root));
                    }
                    return true;
                }
            }
            proof {
                assert(!spec_blocks(self.read_only_paths@[i as int], path, root));
            }
        }
        false
    }

    pub fn is_read_only_event_path(&self, path: &FieldPath) -> (r: bool)
        ensures
            r == (exists|i: int|
                0 <= i < self.read_only_paths@.len() && spec_blocks(
                    #[trigger] self.read_only_paths@[i],
                    path,
                    PathRoot::Event,
                )),
    {
        self.is_read_only_path(path, PathRoot::Event)
    }

    pub fn is_read_only_metadata_path(&self, path: &FieldPath) -> (r: bool)
        ensures
            r == (exists|i: int|
                0 <= i < self.read_only_paths@.len() && spec_blocks(
                    #[trigger] self.read_only_paths@[i],
                    path,
                    PathRoot::Metadata,
                )),
    {
        self.is_read_only_path(path, PathRoot::Metadata)
    }

    /// Registers a path as read only.
    pub fn add_read_only_path(&mut self, path: FieldPath, recursive: bool, root: PathRoot)
        ensures
            final(self).read_only_paths@ =~= old(self).read_only_paths@.push(
                (ReadOnlyPath { path, recursive, root }),
            ),
            final(self).target == old(self).target,
    {
        self.read_only_paths.push(ReadOnlyPath { path, recursive, root });
    }

    pub fn add_read_only_event_path(&mut self, path: FieldPath, recursive: bool)
        ensures
            final(self).read_only_paths@ =~= old(self).read_only_paths@.push(
                (ReadOnlyPath { path, recursive, root: PathRoot::Event }),
            ),
            final(self).target == old(self).target,
    {
        self.add_read_only_path(path, recursive, PathRoot::Event);
    }

    pub fn add_read_only_metadata_path(&mut self, path: FieldPath, recursive: bool)
        ensures
            final(self).read_only_paths@ =~= old(self).read_only_paths@.push(
                (ReadOnlyPath { path, recursive, root: PathRoot::Metadata }),
            ),
            final(self).target == old(self).target,
    {
        self.add_read_only_path(path, recursive, PathRoot::Metadata);
    }

    /// Marks everything as read only: both trees get a recursive
    /// read-only entry rooted at the empty path, so every path of
    /// either root is covered.
    pub fn read_only(self) -> (r: Self)
        ensures
            r.read_only_paths@.len() == self.read_only_paths@.len() + 2,
            forall|i: int|
                0 <= i < self.read_only_paths@.len() ==> #[trigger] r.read_only_paths@[i]
                    == self.read_only_paths@[i],
            ({
                let ev = r.read_only_paths@[self.read_only_paths@.len() as int];
                ev.path.views() =~= Seq::<Seq<char>>::empty() && ev.recursive && ev.root
                    == PathRoot::Event
            }),
            ({
                let md = r.read_only_paths@[self.read_only_paths@.len() as int + 1];
                md.path.views() =~= Seq::<Seq<char>>::empty() && md.recursive && md.root
                    == PathRoot::Metadata
            }),
            r.target == self.target,
    {
        let mut out = self;
        out.add_read_only_event_path(FieldPath::root(), true);
        out.add_read_only_metadata_path(FieldPath::root(), true);
        out
    }
}

} // verus!
