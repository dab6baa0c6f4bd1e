//! Small verified helpers shared by the other modules.

use vstd::prelude::*;

use vstd::utf8::{encode_scalar, encode_utf8};

verus! {

/// UTF-8 spends at most four bytes per character.
pub proof fn lemma_utf8_len_bound(cs: Seq<char>)
    ensures
        encode_utf8(cs).len() <= 4 * cs.len(),
    decreases cs.len(),
{
    if cs.len() > 0 {
        lemma_utf8_len_bound(cs.drop_first());
        assert(encode_scalar(cs[0] as u32).len() <= 4);
    }
}

/// 2^32, the bound under which every byte count this library hands to the
/// outside crates is accepted by them.
pub open spec fn four_gib() -> int {
    0x1_0000_0000
}

/// Copies `v[start..end]` into a fresh vector.
pub fn sub_vec<T: Copy>(v: &Vec<T>, start: usize, end: usize) -> (r: Vec<T>)
    requires
        start <= end <= v@.len(),
    ensures
        r@ == v@.subrange(start as int, end as int),
{
    let mut r: Vec<T> = Vec::new();
    let mut i: usize = start;
    while i < end
        invariant
            start <= i <= end <= v@.len(),
            r@ == v@.subrange(start as int, i as int),
        decreases end - i,
    {
        r.push(v[i]);
        proof {
            assert(r@ =~= v@.subrange(start as int, (i + 1) as int));
        }
        i = i + 1;
    }
    r
}

} // verus!
