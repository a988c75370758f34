//! Laws of the store semantics.
//!
//! These state, over the parser's store model, what holds of every input:
//! re-assignment keeps only the last value, possessive merges accumulate
//! properties, and copying a variable copies its value.
use vstd::prelude::*;

use crate::parser::{assign_conflicts, assign_key, merge_conflicts, merge_key};
use crate::value::ValueV;

verus! {

/// Re-assigning a name with a new scalar is idempotent in effect: the store
/// reflects only the last assignment, and the re-assignment never raises a
/// conflict when both values are scalars.
pub proof fn reassignment_keeps_last(
    m: Map<Seq<char>, ValueV>,
    key: Seq<char>,
    v1: ValueV,
    v2: ValueV,
)
    requires
        !(v1 is Object),
        !(v2 is Object),
    ensures
        !assign_conflicts(assign_key(m, key, v1), key, v2),
        assign_key(assign_key(m, key, v1), key, v2) == assign_key(m, key, v2),
{
    assert(assign_key(assign_key(m, key, v1), key, v2) =~= assign_key(m, key, v2));
}

/// Possessive merge is additive: giving an unbound owner two different
/// properties, one statement each, yields a single object holding both.
pub proof fn possessive_merge_is_additive(
    m: Map<Seq<char>, ValueV>,
    owner: Seq<char>,
    prop_a: Seq<char>,
    prop_b: Seq<char>,
    v1: ValueV,
    v2: ValueV,
)
    requires
        !m.contains_key(owner),
        prop_a != prop_b,
    ensures
        !merge_conflicts(m, owner),
        !merge_conflicts(merge_key(m, owner, prop_a, v1), owner),
        merge_key(merge_key(m, owner, prop_a, v1), owner, prop_b, v2) == m.insert(
            owner,
            ValueV::Object(map![prop_a => v1, prop_b => v2]),
        ),
{
    let m1 = merge_key(m, owner, prop_a, v1);
    let m2 = merge_key(m1, owner, prop_b, v2);
    assert(m1[owner]->Object_0 =~= map![prop_a => v1]);
    assert(m1[owner]->Object_0.insert(prop_b, v2) =~= map![prop_a => v1, prop_b => v2]);
    assert(m2 =~= m.insert(owner, ValueV::Object(map![prop_a => v1, prop_b => v2])));
}

/// Copying a variable copies its value, it does not alias it: re-assigning
/// the source afterwards leaves the copy as it was.
pub proof fn variable_copy_does_not_alias(
    m: Map<Seq<char>, ValueV>,
    source: Seq<char>,
    dest: Seq<char>,
    w: ValueV,
)
    requires
        dest != source,
        m.contains_key(source),
    ensures
        assign_key(m, dest, m[source])[dest] == m[source],
        assign_key(assign_key(m, dest, m[source]), source, w)[dest] == m[source],
        assign_key(assign_key(m, dest, m[source]), source, w)[source] == w,
{
}

} // verus!
