use vstd::prelude::*;
use crate::packed_enum::{fit_mask, U32_MASK};
use crate::packed_uints::PackedUints;

verus! {

/// Building a container from a sequence and reading any index back gives
/// the element of the sequence at that index.
pub proof fn lemma_from_then_get(values: Seq<usize>, c: PackedUints, i: int)
    requires
        forall|k: int| 0 <= k < values.len() ==> #[trigger] values[k] <= U32_MASK,
        c.wf(),
        c.length == values.len(),
        c@ == values,
        0 <= i < values.len(),
    ensures
        c@[i] == values[i],
        c.length == values.len(),
{
}

/// After writing `v` at index `i`, reading `i` gives `v` and every other
/// index reads as before.
pub proof fn lemma_set_then_get(before: PackedUints, after: PackedUints, i: int, v: usize)
    requires
        before.wf(),
        0 <= i < before.length,
        v <= U32_MASK,
        after.wf(),
        after.length == before.length,
        after@ == before@.update(i, v),
    ensures
        after@[i] == v,
        forall|j: int| 0 <= j < before.length && j != i ==> #[trigger] after@[j] == before@[j],
{
}

/// Writing a value too wide for the current storage widens it to the
/// narrowest width that holds the value and changes no other index.
pub proof fn lemma_upscale_keeps_others(
    before: PackedUints,
    after: PackedUints,
    i: int,
    v: usize,
)
    requires
        before.wf(),
        0 <= i < before.length,
        v <= U32_MASK,
        v > before.mask,
        after.wf(),
        after.length == before.length,
        after@ == before@.update(i, v),
        after.mask == fit_mask(v),
    ensures
        after.mask > before.mask,
        v <= after.mask,
        after@[i] == v,
        forall|j: int| 0 <= j < before.length && j != i ==> #[trigger] after@[j] == before@[j],
{
}

/// After filling `start .. end` with `v`, every index inside the range reads
/// `v` and every index outside it reads as before.
pub proof fn lemma_set_range_then_get(
    before: PackedUints,
    after: PackedUints,
    start: int,
    end: int,
    v: usize,
)
    requires
        before.wf(),
        0 <= start <= end <= before.length,
        v <= U32_MASK,
        after.wf(),
        after.length == before.length,
        after@ == Seq::new(
            before.length as nat,
            |k: int|
                if start <= k < end {
                    v
                } else {
                    before@[k]
                },
        ),
    ensures
        forall|k: int| start <= k < end ==> #[trigger] after@[k] == v,
        forall|k: int|
            0 <= k < before.length && !(start <= k < end) ==> #[trigger] after@[k] == before@[k],
{
}

/// Iterating yields exactly `length` values, the one at position `k` being
/// what reading index `k` gives.
pub proof fn lemma_iter_matches_get(c: PackedUints, items: Seq<usize>)
    requires
        c.wf(),
        items == c@,
    ensures
        items.len() == c.length,
        forall|k: int| 0 <= k < c.length ==> #[trigger] items[k] == c@[k],
{
}

} // verus!
