//! Animation masks: 64-bit fields in which bit `n` stands for mask group `n`.
use vstd::prelude::*;

use crate::graph_desc::MaskGroupIdx;

verus! {

/// The mask groups whose bits are set in `bits`.
pub open spec fn groups_in_mask(bits: u64) -> Set<u32> {
    Set::new(|i: u32| i < 64 && (bits >> i) & 1u64 == 1u64)
}

/// The group indices that a list of mask groups names.
pub open spec fn mask_indices(mask: Seq<MaskGroupIdx>) -> Set<u32> {
    Set::new(|i: u32| exists|j: int| 0 <= j < mask.len() && #[trigger] mask[j]@ == i)
}

/// Every group of the list has a bit in a 64-bit mask.
pub open spec fn mask_in_range(mask: Seq<MaskGroupIdx>) -> bool {
    forall|j: int| 0 <= j < mask.len() ==> #[trigger] mask[j]@ < 64
}

/// Every group of the list is one of the first `group_count` groups.
pub open spec fn mask_defined(mask: Seq<MaskGroupIdx>, group_count: nat) -> bool {
    forall|j: int| 0 <= j < mask.len() ==> #[trigger] mask[j]@ < group_count
}

proof fn lemma_or_bit(a: u64, m: u32, i: u32)
    by (bit_vector)
    requires
        m < 64,
        i < 64,
    ensures
        ((a | (1u64 << m)) >> i) & 1u64 == 1u64 <==> ((a >> i) & 1u64 == 1u64 || i == m),
{
}

proof fn lemma_zero_bits(i: u32)
    by (bit_vector)
    requires
        i < 64,
    ensures
        (0u64 >> i) & 1u64 != 1u64,
{
}

/// The mask in which exactly the listed groups are set.
pub fn mask_bits(mask: &Vec<MaskGroupIdx>) -> (r: u64)
    requires
        mask_in_range(mask@),
    ensures
        groups_in_mask(r) == mask_indices(mask@),
{
    let mut acc: u64 = 0;
    let mut k: usize = 0;
    proof {
        assert forall|i: u32| !groups_in_mask(acc).contains(i) by {
            if i < 64 {
                lemma_zero_bits(i);
            }
        }
        assert(groups_in_mask(acc) =~= mask_indices(mask@.take(0)));
    }
    while k < mask.len()
        invariant
            k <= mask.len(),
            mask_in_range(mask@),
            groups_in_mask(acc) == mask_indices(mask@.take(k as int)),
        decreases mask.len() - k,
    {
        let m = mask[k];
        let b = m.bit();
        let ghost old_acc = acc;
        acc = acc | b;
        proof {
            let pre = mask@.take(k as int);
            let post = mask@.take(k + 1);
            assert(m@ < 64);
            assert forall|i: u32| groups_in_mask(acc).contains(i) <==> mask_indices(post).contains(i) by {
                if i < 64 {
                    lemma_or_bit(old_acc, m@, i);
                    assert(groups_in_mask(old_acc).contains(i) <==> mask_indices(pre).contains(i));
                    if mask_indices(pre).contains(i) {
                        let j = choose|j: int| 0 <= j < pre.len() && #[trigger] pre[j]@ == i;
                        assert(post[j] == pre[j]);
                    }
                    if mask_indices(post).contains(i) {
                        let j = choose|j: int| 0 <= j < post.len() && #[trigger] post[j]@ == i;
                        if j < k {
                            assert(pre[j] == post[j]);
                        }
                    }
                    if i == m@ {
                        assert(post[k as int] == m);
                    }
                } else {
                    if mask_indices(post).contains(i) {
                        let j = choose|j: int| 0 <= j < post.len() && #[trigger] post[j]@ == i;
                        assert(mask[j] == post[j]);
                    }
                }
            }
            assert(groups_in_mask(acc) =~= mask_indices(post));
        }
        k = k + 1;
    }
    proof {
        assert(mask@.take(mask@.len() as int) =~= mask@);
    }
    acc
}

/// A mask names groups that the graph does not define.
#[derive(Debug, Clone, Copy, PartialEq, Eq)]
pub struct UndefinedMaskGroups {
    /// The mask that was asked for.
    pub requested: u64,
    /// How many groups the graph defines.
    pub group_count: usize,
}

/// The mask of the listed groups, provided that each of them is among the
/// `group_count` groups of the graph.
pub fn checked_mask_bits(mask: &Vec<MaskGroupIdx>, group_count: usize) -> (r: Result<
    u64,
    UndefinedMaskGroups,
>)
    requires
        mask_in_range(mask@),
    ensures
        r is Ok <==> mask_defined(mask@, group_count as nat),
        r matches Ok(bits) ==> groups_in_mask(bits) == mask_indices(mask@),
        r matches Err(e) ==> groups_in_mask(e.requested) == mask_indices(mask@),
        r matches Err(e) ==> e.group_count == group_count,
{
    let bits = mask_bits(mask);
    let mut k: usize = 0;
    while k < mask.len()
        invariant
            k <= mask.len(),
            forall|j: int| 0 <= j < k ==> #[trigger] mask@[j]@ < group_count,
            groups_in_mask(bits) == mask_indices(mask@),
        decreases mask.len() - k,
    {
        if mask[k].idx() as usize >= group_count {
            return Err(UndefinedMaskGroups { requested: bits, group_count });
        }
        k = k + 1;
    }
    Ok(bits)
}

} // verus!
