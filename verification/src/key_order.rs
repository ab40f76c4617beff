//! The order of the tally's address keys, `(family, bits)`: by family,
//! then by bits, as tuples compare.

use vstd::prelude::*;
use vstd::std_specs::cmp::OrdSpec;
use vstd::laws_cmp::obeys_cmp;

verus! {

/// A key comes before another exactly when its family number is smaller,
/// or the families agree and its bits are smaller.
pub proof fn lemma_key_less(a: (u8, u128), b: (u8, u128))
    ensures
        a.cmp_spec(&b) is Less <==> (a.0 < b.0 || (a.0 == b.0 && a.1 < b.1)),
{
}

/// Pairs of integers compare as `Ord` promises.
pub proof fn lemma_keys_obey_order()
    ensures
        obeys_cmp::<(u8, u128)>(),
{
    broadcast use vstd::laws_cmp::group_laws_cmp;
}

} // verus!
