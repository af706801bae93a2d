//! The key order of `BTreeMap<u64, _>` iteration, in terms of `<`.

use vstd::prelude::*;
use vstd::std_specs::btree::*;
use vstd::std_specs::cmp::OrdSpec;

verus! {

/// A sequence of `u64` that `BTreeMap` calls increasing is strictly
/// increasing under `<`.
pub proof fn lemma_increasing_u64(s: Seq<u64>)
    requires
        increasing_seq(s),
    ensures
        forall|i: int, j: int| 0 <= i < j < s.len() ==> s[i] < s[j],
{
    broadcast use axiom_increasing_seq_meaning;
    assert forall|i: int, j: int| 0 <= i < j < s.len() implies s[i] < s[j] by {
        assert(s[i].cmp_spec(&s[j]) is Less);
    }
}

} // verus!
