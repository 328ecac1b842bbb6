//! Human-readable diagnostics, built by concatenation.
//!
//! Each message has a spec twin giving its exact character sequence,
//! so the compiler's error and warning lists are pinned down.

use vstd::prelude::*;
use vstd::string::StringExecFns;

verus! {

/// Appends `b` to `a`.
pub fn cat(a: String, b: &str) -> (r: String)
    ensures
        r@ == a@ + b@,
{
    a.concat(b)
}

/// A fresh string holding `a`.
pub fn lit(a: &str) -> (r: String)
    ensures
        r@ == a@,
{
    String::from_str(a)
}

pub open spec fn msg_name_has_dot(id: Seq<char>) -> Seq<char> {
    "Component name \""@ + id + "\" should not contain a '.'"@
}

pub fn mk_name_has_dot(id: &str) -> (r: String)
    ensures
        r@ == msg_name_has_dot(id@),
{
    cat(cat(lit("Component name \""), id), "\" should not contain a '.'")
}

pub open spec fn msg_duplicate_name(id: Seq<char>) -> Seq<char> {
    "More than one component with name \""@ + id + "\""@
}

pub fn mk_duplicate_name(id: &str) -> (r: String)
    ensures
        r@ == msg_duplicate_name(id@),
{
    cat(cat(lit("More than one component with name \""), id), "\"")
}

pub open spec fn msg_no_inputs(id: Seq<char>) -> Seq<char> {
    "Component \""@ + id + "\" has no inputs"@
}

pub fn mk_no_inputs(id: &str) -> (r: String)
    ensures
        r@ == msg_no_inputs(id@),
{
    cat(cat(lit("Component \""), id), "\" has no inputs")
}

pub open spec fn msg_resource_conflict(resource: Seq<char>) -> Seq<char> {
    "Resource \""@ + resource + "\" is claimed by more than one component"@
}

pub fn mk_resource_conflict(resource: &str) -> (r: String)
    ensures
        r@ == msg_resource_conflict(resource@),
{
    cat(cat(lit("Resource \""), resource), "\" is claimed by more than one component")
}

pub open spec fn msg_duplicate_output(id: Seq<char>, port: Seq<char>) -> Seq<char> {
    "Component \""@ + id + "\" declares the output \""@ + port + "\" more than once"@
}

pub fn mk_duplicate_output(id: &str, port: &str) -> (r: String)
    ensures
        r@ == msg_duplicate_output(id@, port@),
{
    cat(
        cat(cat(cat(lit("Component \""), id), "\" declares the output \""), port),
        "\" more than once",
    )
}

pub open spec fn msg_expansion_failed(id: Seq<char>, cause: Seq<char>) -> Seq<char> {
    "Failed to expand transform \""@ + id + "\": "@ + cause
}

pub fn mk_expansion_failed(id: &str, cause: &str) -> (r: String)
    ensures
        r@ == msg_expansion_failed(id@, cause@),
{
    cat(cat(cat(lit("Failed to expand transform \""), id), "\": "), cause)
}

pub open spec fn msg_glob_warning(id: Seq<char>, pattern: Seq<char>) -> Seq<char> {
    "Invalid glob pattern for input \""@ + pattern + "\" on component \""@ + id
        + "\"; treated as a literal"@
}

pub fn mk_glob_warning(id: &str, pattern: &str) -> (r: String)
    ensures
        r@ == msg_glob_warning(id@, pattern@),
{
    cat(
        cat(cat(cat(lit("Invalid glob pattern for input \""), pattern), "\" on component \""), id),
        "\"; treated as a literal",
    )
}

pub open spec fn msg_unknown_input(consumer: Seq<char>, reference: Seq<char>) -> Seq<char> {
    "Input \""@ + reference + "\" for component \""@ + consumer
        + "\" doesn't match any components"@
}

pub fn mk_unknown_input(consumer: &str, reference: &str) -> (r: String)
    ensures
        r@ == msg_unknown_input(consumer@, reference@),
{
    cat(
        cat(cat(cat(lit("Input \""), reference), "\" for component \""), consumer),
        "\" doesn't match any components",
    )
}

pub open spec fn msg_invalid_port(consumer: Seq<char>, reference: Seq<char>, port: Seq<char>) -> Seq<
    char,
> {
    "Input \""@ + reference + "\" for component \""@ + consumer + "\" names the unknown port \""@
        + port + "\""@
}

pub fn mk_invalid_port(consumer: &str, reference: &str, port: &str) -> (r: String)
    ensures
        r@ == msg_invalid_port(consumer@, reference@, port@),
{
    cat(
        cat(
            cat(cat(cat(cat(lit("Input \""), reference), "\" for component \""), consumer),
                "\" names the unknown port \""),
            port,
        ),
        "\"",
    )
}

pub open spec fn msg_type_mismatch(producer: Seq<char>, consumer: Seq<char>) -> Seq<char> {
    "Data type mismatch between \""@ + producer + "\" and \""@ + consumer + "\""@
}

pub fn mk_type_mismatch(producer: &str, consumer: &str) -> (r: String)
    ensures
        r@ == msg_type_mismatch(producer@, consumer@),
{
    cat(cat(cat(cat(lit("Data type mismatch between \""), producer), "\" and \""), consumer), "\"")
}

pub open spec fn msg_test_unresolved(test: Seq<char>, reference: Seq<char>) -> Seq<char> {
    "Failed to resolve input \""@ + reference + "\" for test \""@ + test + "\""@
}

pub fn mk_test_unresolved(test: &str, reference: &str) -> (r: String)
    ensures
        r@ == msg_test_unresolved(test@, reference@),
{
    cat(cat(cat(cat(lit("Failed to resolve input \""), reference), "\" for test \""), test), "\"")
}

/// The views of a list of strings.
pub open spec fn str_views(s: Seq<String>) -> Seq<Seq<char>> {
    s.map_values(|x: String| x@)
}

/// Appends one diagnostic, reflected on the list of views.
pub fn push_err(errors: &mut Vec<String>, e: String)
    ensures
        str_views(final(errors)@) =~= str_views(old(errors)@).push(e@),
{
    let ghost pre = str_views(errors@);
    let ghost ev = e@;
    errors.push(e);
    proof {
        assert(str_views(errors@) =~= pre.push(ev));
    }
}

/// The rendering of a cycle as a chain, one id after another.
pub open spec fn spec_cycle_chain(ids: Seq<Seq<char>>, n: int) -> Seq<char>
    decreases n,
{
    if n <= 0 {
        Seq::empty()
    } else if n == 1 {
        ids[0]
    } else {
        spec_cycle_chain(ids, n - 1) + " -> "@ + ids[n - 1]
    }
}

pub open spec fn msg_cycle(ids: Seq<Seq<char>>) -> Seq<char> {
    "Cyclic dependency detected in the chain [ "@ + spec_cycle_chain(ids, ids.len() as int)
        + " ]"@
}

/// Renders the cycle error from the ordered component ids on the cycle.
pub fn mk_cycle(ids: &Vec<String>) -> (r: String)
    ensures
        r@ == msg_cycle(str_views(ids@)),
{
    let mut chain = lit("");
    assert(chain@ =~= spec_cycle_chain(str_views(ids@), 0)) by {
        reveal_strlit("");
    }
    let n = ids.len();
    for i in 0..n
        invariant
            n == ids@.len(),
            chain@ =~= spec_cycle_chain(str_views(ids@), i as int),
    {
        assert(str_views(ids@)[i as int] == ids@[i as int]@);
        if i == 0 {
            chain = cat(chain, ids[i].as_str());
            assert(chain@ =~= spec_cycle_chain(str_views(ids@), 1));
        } else {
            chain = cat(cat(chain, " -> "), ids[i].as_str());
        }
    }
    let r = cat(cat(lit("Cyclic dependency detected in the chain [ "), chain.as_str()), " ]");
    assert(r@ =~= msg_cycle(str_views(ids@)));
    r
}

} // verus!
