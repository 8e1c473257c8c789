use vstd::prelude::*;
use crate::packed_enum::{
    fit_mask, pack, PackedEnum, U16_MASK, U32_MASK, U4_IN_U8, U4_MASK, U8_MASK,
};

verus! {

/// Largest element of `s`, or 0 for an empty sequence.
pub open spec fn seq_max(s: Seq<usize>) -> usize
    decreases s.len(),
{
    if s.len() == 0 {
        0
    } else {
        let m = seq_max(s.drop_last());
        if s.last() > m {
            s.last()
        } else {
            m
        }
    }
}

/// The mask of the narrowest width that holds `value`.
fn mask_for(value: usize) -> (r: usize)
    ensures
        r == fit_mask(value),
{
    if value <= U4_MASK {
        U4_MASK
    } else if value <= U8_MASK {
        U8_MASK
    } else if value <= U16_MASK {
        U16_MASK
    } else {
        U32_MASK
    }
}

/// A fixed-length array of unsigned integers stored at the narrowest width
/// that holds them.
///
/// Widths go up to 32 bits: every constructor and writer requires its values
/// to be at most `U32_MASK`, so wider values are rejected rather than
/// truncated. The width only ever grows.
#[derive(Debug, Clone)]
pub struct PackedUints {
    pub data: PackedEnum,
    pub mask: usize,
    pub length: usize,
}

impl PackedUints {
    /// The cached mask matches the buffer, which is sized for `length`.
    pub open spec fn wf(&self) -> bool {
        &&& self.mask == self.data.spec_mask()
        &&& self.data.sized_for(self.length as nat)
    }

    /// The elements, in index order.
    pub open spec fn view(&self) -> Seq<usize> {
        self.data.prefix(self.length as nat)
    }

    /// `length` zeros, at 4 bits.
    pub fn new(length: usize) -> (r: Self)
        ensures
            r.wf(),
            r.length == length,
            r.mask == U4_MASK,
            r@ == Seq::new(length as nat, |i: int| 0usize),
    {
        PackedUints::filled(length, 0)
    }

    /// `length` copies of `value`, at the narrowest width that holds it.
    pub fn filled(length: usize, value: usize) -> (r: Self)
        requires
            value <= U32_MASK,
        ensures
            r.wf(),
            r.length == length,
            r.mask == fit_mask(value),
            r@ == Seq::new(length as nat, |i: int| value),
    {
        let mask = mask_for(value);
        let data = if mask == U4_MASK {
            let v = value as u8;
            proof {
                crate::packed_enum::lemma_nibble_write(0, v);
            }
            let units = length / U4_IN_U8 + length % U4_IN_U8;
            PackedEnum::U4(vec![v | (v << 4u8); units])
        } else if mask == U8_MASK {
            PackedEnum::U8(vec![value as u8; length])
        } else if mask == U16_MASK {
            PackedEnum::U16(vec![value as u16; length])
        } else {
            PackedEnum::U32(vec![value as u32; length])
        };
        let r = PackedUints { mask, data, length };
        assert(r@ =~= Seq::new(length as nat, |i: int| value));
        r
    }

    /// The elements of `values`, at the narrowest width that holds the
    /// largest of them (4 bits when there are none).
    pub fn from(values: &[usize]) -> (r: Self)
        requires
            forall|i: int| 0 <= i < values@.len() ==> #[trigger] values@[i] <= U32_MASK,
        ensures
            r.wf(),
            r.length == values@.len(),
            r.mask == fit_mask(seq_max(values@)),
            r@ == values@,
    {
        let n = values.len();
        let mut max: usize = 0;
        let mut i: usize = 0;
        while i < n
            invariant
                n == values@.len(),
                i <= n,
                max == seq_max(values@.subrange(0, i as int)),
                forall|k: int| 0 <= k < i ==> #[trigger] values@[k] <= max,
            decreases n - i,
        {
            assert(values@.subrange(0, i as int + 1).drop_last() =~= values@.subrange(0, i as int));
            if values[i] > max {
                max = values[i];
            }
            i = i + 1;
        }
        assert(values@.subrange(0, n as int) =~= values@);
        let mask = mask_for(max);
        let data = pack(values, mask);
        PackedUints { mask, data, length: n }
    }

    /// The elements, in index order.
    pub fn iter(&self) -> (r: Vec<usize>)
        requires
            self.wf(),
        ensures
            r@ == self@,
            r@.len() == self.length,
    {
        self.data.iter(self.length)
    }

    /// The element at index `i`.
    pub fn get(&self, i: usize) -> (r: usize)
        requires
            self.wf(),
            i < self.length,
        ensures
            r == self@[i as int],
            r <= self.mask,
    {
        self.data.get(i)
    }

    /// Re-encodes every element at a wider width when `value` does not fit
    /// the current one.
    fn upscale_if_needed(&mut self, value: usize)
        requires
            old(self).wf(),
            value <= U32_MASK,
        ensures
            final(self).wf(),
            final(self).length == old(self).length,
            final(self)@ == old(self)@,
            final(self).mask == if value <= old(self).mask {
                old(self).mask
            } else {
                fit_mask(value)
            },
            value <= final(self).mask,
    {
        if value > self.mask {
            // Every stored value is at most the old mask, which is below
            // `value`, so a width chosen for `value` alone holds them all.
            let mask = mask_for(value);
            let values = self.data.iter(self.length);
            proof {
                assert forall|i: int| 0 <= i < values@.len() implies #[trigger] values@[i]
                    <= mask by {
                    self.data.lemma_at_within_mask(i);
                }
            }
            self.data = pack(values.as_slice(), mask);
            self.mask = mask;
        }
    }

    /// Writes `value` at index `i`, widening the storage first when needed.
    pub fn set(&mut self, i: usize, value: usize)
        requires
            old(self).wf(),
            i < old(self).length,
            value <= U32_MASK,
        ensures
            final(self).wf(),
            final(self).length == old(self).length,
            final(self)@ == old(self)@.update(i as int, value),
            final(self).mask == if value <= old(self).mask {
                old(self).mask
            } else {
                fit_mask(value)
            },
    {
        self.upscale_if_needed(value);
        self.data.set(i, value);
        assert(self@ =~= old(self)@.update(i as int, value));
    }

    /// Writes `value` at every index in `start .. end`, widening the storage
    /// first when needed.
    pub fn set_range(&mut self, start: usize, end: usize, value: usize)
        requires
            old(self).wf(),
            start <= end,
            end <= old(self).length,
            value <= U32_MASK,
        ensures
            final(self).wf(),
            final(self).length == old(self).length,
            final(self)@ == Seq::new(
                old(self).length as nat,
                |k: int|
                    if start <= k < end {
                        value
                    } else {
                        old(self)@[k]
                    },
            ),
            final(self).mask == if value <= old(self).mask {
                old(self).mask
            } else {
                fit_mask(value)
            },
    {
        self.upscale_if_needed(value);
        self.data.set_range(start, end, value);
        assert(self@ =~= Seq::new(
            old(self).length as nat,
            |k: int|
                if start <= k < end {
                    value
                } else {
                    old(self)@[k]
                },
        ));
    }
}

} // verus!
