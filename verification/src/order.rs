use crate::game::precedes;
use vstd::prelude::*;
use vstd::std_specs::btree::increasing_seq;
use vstd::std_specs::cmp::OrdSpec;

verus! {

/// Pairs of `u32` are ordered as the standard library documents it for
/// tuples, so an ordered set of positions behaves as a set.
pub proof fn lemma_positions_comparable()
    ensures
        vstd::laws_cmp::obeys_cmp::<(u32, u32)>(),
        vstd::std_specs::btree::key_obeys_cmp_spec::<(u32, u32)>(),
{
    broadcast use vstd::laws_cmp::group_laws_cmp;

    assert(vstd::laws_cmp::obeys_cmp::<u32>());
    assert(vstd::laws_cmp::obeys_cmp::<(u32, u32)>());
}

/// An ordered set of positions is walked by column, then by row.
pub proof fn lemma_increasing_precedes(r: Seq<&(u32, u32)>)
    requires
        increasing_seq(r),
    ensures
        forall|i: int, j: int| 0 <= i < j < r.len() ==> precedes(*r[i], *r[j]),
{
    broadcast use vstd::laws_cmp::group_laws_cmp;

    assert(vstd::laws_cmp::obeys_cmp::<u32>());
    assert(vstd::laws_cmp::obeys_cmp::<(u32, u32)>());
    assert(vstd::laws_cmp::obeys_cmp::<&(u32, u32)>());
    vstd::std_specs::btree::axiom_increasing_seq_meaning::<&(u32, u32)>(r);
    assert forall|i: int, j: int| 0 <= i < j < r.len() implies precedes(*r[i], *r[j]) by {
        assert(OrdSpec::cmp_spec(&r[i], &r[j]) is Less);
    }
}

} // verus!
