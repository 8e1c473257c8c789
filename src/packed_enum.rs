use vstd::prelude::*;

verus! {

/// Number of 4-bit elements held by one byte.
pub const U4_IN_U8: usize = 2;

/// Mask that extracts the position of a 4-bit element inside its byte.
pub const PARITY_MASK: usize = 1;

/// Largest value of the 4-bit width.
pub const U4_MASK: usize = 15;

/// Largest value of the 8-bit width.
pub const U8_MASK: usize = 255;

/// Largest value of the 16-bit width.
pub const U16_MASK: usize = 65535;

/// Largest value of the 32-bit width.
pub const U32_MASK: usize = 4294967295;

/// The low nibble of a byte.
pub open spec fn lo(b: u8) -> usize {
    (b % 16) as usize
}

/// The high nibble of a byte.
pub open spec fn hi(b: u8) -> usize {
    (b / 16) as usize
}

/// Element `k` of a byte sequence that holds two 4-bit elements per byte,
/// the even one in the low nibble.
pub open spec fn nibble(d: Seq<u8>, k: int) -> usize {
    if k % 2 == 0 {
        lo(d[k / 2])
    } else {
        hi(d[k / 2])
    }
}

/// One buffer of elements, all stored at the same width.
#[derive(Debug, Clone)]
pub enum PackedEnum {
    U4(Vec<u8>),
    U8(Vec<u8>),
    U16(Vec<u16>),
    U32(Vec<u32>),
}

impl PackedEnum {
    /// Largest value that the width of `self` can hold.
    pub open spec fn spec_mask(&self) -> usize {
        match self {
            PackedEnum::U4(_) => U4_MASK,
            PackedEnum::U8(_) => U8_MASK,
            PackedEnum::U16(_) => U16_MASK,
            PackedEnum::U32(_) => U32_MASK,
        }
    }

    /// Number of element slots in the buffer (two per byte at 4 bits).
    pub open spec fn slots(&self) -> nat {
        match self {
            PackedEnum::U4(d) => 2 * d@.len(),
            PackedEnum::U8(d) => d@.len(),
            PackedEnum::U16(d) => d@.len(),
            PackedEnum::U32(d) => d@.len(),
        }
    }

    /// The element stored in slot `i`.
    pub open spec fn at(&self, i: int) -> usize {
        match self {
            PackedEnum::U4(d) => nibble(d@, i),
            PackedEnum::U8(d) => d@[i] as usize,
            PackedEnum::U16(d) => d@[i] as usize,
            PackedEnum::U32(d) => d@[i] as usize,
        }
    }

    /// Slots `0 .. n` of the buffer, in order.
    pub open spec fn prefix(&self, n: nat) -> Seq<usize> {
        Seq::new(n, |i: int| self.at(i))
    }

    /// Whether the buffer holds exactly the slots needed for `length` elements.
    pub open spec fn sized_for(&self, length: nat) -> bool {
        match self {
            PackedEnum::U4(d) => d@.len() == length / 2 + length % 2,
            _ => self.slots() == length,
        }
    }

    /// Largest value that the width of `self` can hold.
    pub fn mask(&self) -> (r: usize)
        ensures
            r == self.spec_mask(),
    {
        match self {
            PackedEnum::U4(_) => U4_MASK,
            PackedEnum::U8(_) => U8_MASK,
            PackedEnum::U16(_) => U16_MASK,
            PackedEnum::U32(_) => U32_MASK,
        }
    }

    /// Every slot holds a value within the mask of the width.
    pub proof fn lemma_at_within_mask(&self, i: int)
        requires
            0 <= i < self.slots(),
        ensures
            self.at(i) <= self.spec_mask(),
    {
        if let PackedEnum::U4(d) = self {
            lemma_nibble_read(d@[i / 2]);
        }
    }

    /// Reads the element in slot `i`.
    pub(crate) fn get(&self, i: usize) -> (r: usize)
        requires
            i < self.slots(),
        ensures
            r == self.at(i as int),
            r <= self.spec_mask(),
    {
        match self {
            PackedEnum::U4(data) => {
                let b = data[i / U4_IN_U8];
                proof {
                    lemma_nibble_read(b);
                }
                if i & PARITY_MASK == 0 {
                    assert(i & 1 == 0 ==> i % 2 == 0) by (bit_vector);
                    (b & 0x0f) as usize
                } else {
                    assert(i & 1 != 0 ==> i % 2 == 1) by (bit_vector);
                    (b >> 4) as usize
                }
            },
            PackedEnum::U8(data) => data[i] as usize,
            PackedEnum::U16(data) => data[i] as usize,
            PackedEnum::U32(data) => data[i] as usize,
        }
    }

    /// Writes `value` into slot `i`, leaving every other slot as it was.
    pub(crate) fn set(&mut self, i: usize, value: usize)
        requires
            i < old(self).slots(),
            value <= old(self).spec_mask(),
        ensures
            final(self).spec_mask() == old(self).spec_mask(),
            final(self).slots() == old(self).slots(),
            forall|k: int| 0 <= k < old(self).slots() ==> #[trigger] final(self).at(k) == if k == i {
                value
            } else {
                old(self).at(k)
            },
    {
        match self {
            PackedEnum::U4(data) => {
                let j = i / U4_IN_U8;
                let b = data[j];
                let v = value as u8;
                proof {
                    lemma_nibble_write(b, v);
                }
                if i & PARITY_MASK == 0 {
                    assert(i & 1 == 0 ==> i % 2 == 0) by (bit_vector);
                    data[j] = (b & 0xf0) | v;
                } else {
                    assert(i & 1 != 0 ==> i % 2 == 1) by (bit_vector);
                    data[j] = (b & 0x0f) | (v << 4u8);
                }
            },
            PackedEnum::U8(data) => {
                data[i] = value as u8;
            },
            PackedEnum::U16(data) => {
                data[i] = value as u16;
            },
            PackedEnum::U32(data) => {
                data[i] = value as u32;
            },
        }
    }

    /// Writes `value` into slots `start .. end`, leaving every other slot as
    /// it was. At 4 bits a byte that the range covers only in part keeps its
    /// other nibble; bytes covered whole are filled with one doubled byte.
    pub(crate) fn set_range(&mut self, start: usize, end: usize, value: usize)
        requires
            start <= end,
            end <= old(self).slots(),
            value <= old(self).spec_mask(),
        ensures
            final(self).spec_mask() == old(self).spec_mask(),
            final(self).slots() == old(self).slots(),
            forall|k: int| 0 <= k < old(self).slots() ==> #[trigger] final(self).at(k) == if start
                <= k < end {
                value
            } else {
                old(self).at(k)
            },
    {
        match self {
            PackedEnum::U4(data) => {
                if start == end {
                    return;
                }
                let last = end - 1;
                let v = value as u8;
                let start_parity = start & PARITY_MASK;
                let last_parity = last & PARITY_MASK;
                assert(start & 1 == start % 2 && last & 1 == last % 2) by (bit_vector);
                let first_unit = start / U4_IN_U8;
                let last_unit = last / U4_IN_U8;
                let ghost d0 = data@;
                if start_parity == 1 {
                    let b = data[first_unit];
                    proof {
                        lemma_nibble_write(b, v);
                    }
                    data[first_unit] = (b & 0x0f) | (v << 4u8);
                }
                let ghost d1 = data@;
                if last_parity == 0 {
                    let b = data[last_unit];
                    proof {
                        lemma_nibble_write(b, v);
                    }
                    data[last_unit] = (b & 0xf0) | v;
                }
                let ghost d2 = data@;
                let packed = v | (v << 4u8);
                proof {
                    lemma_nibble_write(0, v);
                }
                let mut u: usize = first_unit + start_parity;
                let stop = last_unit + last_parity;
                while u < stop
                    invariant
                        first_unit + start_parity <= u <= stop,
                        stop <= data@.len(),
                        data@.len() == d0.len(),
                        lo(packed) == v,
                        hi(packed) == v,
                        v == value,
                        forall|j: int| 0 <= j < d0.len() ==> #[trigger] data@[j] == if first_unit
                            + start_parity <= j < u {
                            packed
                        } else {
                            d2[j]
                        },
                    decreases stop - u,
                {
                    data[u] = packed;
                    u = u + 1;
                }
                assert forall|k: int| 0 <= k < 2 * d0.len() implies #[trigger] nibble(data@, k) == if start
                    <= k < end {
                    value
                } else {
                    nibble(d0, k)
                } by {
                    let j = k / 2;
                    if first_unit + start_parity <= j < stop {
                        assert(start <= k < end);
                    }
                }
            },
            PackedEnum::U8(data) => {
                let ghost d0 = data@;
                let mut i: usize = start;
                while i < end
                    invariant
                        start <= i <= end,
                        end <= data@.len(),
                        data@.len() == d0.len(),
                        value <= 255,
                        forall|k: int| 0 <= k < data@.len() ==> #[trigger] data@[k] == if start <= k
                            < i {
                            value as u8
                        } else {
                            d0[k]
                        },
                    decreases end - i,
                {
                    data[i] = value as u8;
                    i = i + 1;
                }
            },
            PackedEnum::U16(data) => {
                let ghost d0 = data@;
                let mut i: usize = start;
                while i < end
                    invariant
                        start <= i <= end,
                        end <= data@.len(),
                        data@.len() == d0.len(),
                        value <= 65535,
                        forall|k: int| 0 <= k < data@.len() ==> #[trigger] data@[k] == if start <= k
                            < i {
                            value as u16
                        } else {
                            d0[k]
                        },
                    decreases end - i,
                {
                    data[i] = value as u16;
                    i = i + 1;
                }
            },
            PackedEnum::U32(data) => {
                let ghost d0 = data@;
                let mut i: usize = start;
                while i < end
                    invariant
                        start <= i <= end,
                        end <= data@.len(),
                        data@.len() == d0.len(),
                        value <= 4294967295,
                        forall|k: int| 0 <= k < data@.len() ==> #[trigger] data@[k] == if start <= k
                            < i {
                            value as u32
                        } else {
                            d0[k]
                        },
                    decreases end - i,
                {
                    data[i] = value as u32;
                    i = i + 1;
                }
            },
        }
    }

    /// The elements of slots `0 .. length`, in order.
    pub(crate) fn iter(&self, length: usize) -> (r: Vec<usize>)
        requires
            length <= self.slots(),
        ensures
            r@ == self.prefix(length as nat),
    {
        let mut r: Vec<usize> = Vec::with_capacity(length);
        let mut i: usize = 0;
        while i < length
            invariant
                i <= length,
                length <= self.slots(),
                r@ == self.prefix(i as nat),
            decreases length - i,
        {
            let x = self.get(i);
            r.push(x);
            i = i + 1;
            assert(r@ =~= self.prefix(i as nat));
        }
        r
    }
}

/// Largest of four widths' masks that is needed to hold `v`.
pub open spec fn fit_mask(v: usize) -> usize {
    if v <= U4_MASK {
        U4_MASK
    } else if v <= U8_MASK {
        U8_MASK
    } else if v <= U16_MASK {
        U16_MASK
    } else {
        U32_MASK
    }
}

/// Whether `m` is the mask of one of the four widths.
pub open spec fn is_width_mask(m: usize) -> bool {
    m == U4_MASK || m == U8_MASK || m == U16_MASK || m == U32_MASK
}

/// Encodes `values` at the width whose mask is `mask`.
pub(crate) fn pack(values: &[usize], mask: usize) -> (r: PackedEnum)
    requires
        is_width_mask(mask),
        forall|i: int| 0 <= i < values@.len() ==> #[trigger] values@[i] <= mask,
    ensures
        r.spec_mask() == mask,
        r.sized_for(values@.len()),
        r.prefix(values@.len()) == values@,
{
    let n = values.len();
    if mask == U4_MASK {
        let mut res: Vec<u8> = Vec::with_capacity(n / U4_IN_U8 + n % U4_IN_U8);
        let mut i: usize = 0;
        while i < n
            invariant
                n == values@.len(),
                i <= n,
                i % 2 == 0 || i == n,
                res@.len() == i / 2 + i % 2,
                mask == U4_MASK,
                forall|j: int| 0 <= j < n ==> #[trigger] values@[j] <= mask,
                forall|k: int| 0 <= k < i ==> #[trigger] nibble(res@, k) == values@[k],
            decreases n - i,
        {
            let a = values[i] as u8;
            let ghost before = res@;
            let ghost i0 = i;
            if i + 1 < n {
                let b = values[i + 1] as u8;
                proof {
                    lemma_nibble_pair(a, b);
                }
                res.push(a | (b << 4u8));
                i = i + 2;
            } else {
                proof {
                    lemma_nibble_pair(a, 0);
                }
                res.push(a);
                i = n;
            }
            assert forall|k: int| 0 <= k < i implies #[trigger] nibble(res@, k) == values@[k] by {
                if k < i0 {
                    assert(k / 2 < before.len());
                    assert(res@[k / 2] == before[k / 2]);
                    assert(nibble(before, k) == values@[k]);
                }
            }
        }
        let r = PackedEnum::U4(res);
        assert(r.prefix(n as nat) =~= values@);
        r
    } else if mask == U8_MASK {
        let mut res: Vec<u8> = Vec::with_capacity(n);
        let mut i: usize = 0;
        while i < n
            invariant
                n == values@.len(),
                i <= n,
                res@.len() == i,
                forall|j: int| 0 <= j < n ==> #[trigger] values@[j] <= mask,
                mask == U8_MASK,
                forall|k: int| 0 <= k < i ==> #[trigger] res@[k] as usize == values@[k],
            decreases n - i,
        {
            res.push(values[i] as u8);
            i = i + 1;
        }
        let r = PackedEnum::U8(res);
        assert(r.prefix(n as nat) =~= values@);
        r
    } else if mask == U16_MASK {
        let mut res: Vec<u16> = Vec::with_capacity(n);
        let mut i: usize = 0;
        while i < n
            invariant
                n == values@.len(),
                i <= n,
                res@.len() == i,
                forall|j: int| 0 <= j < n ==> #[trigger] values@[j] <= mask,
                mask == U16_MASK,
                forall|k: int| 0 <= k < i ==> #[trigger] res@[k] as usize == values@[k],
            decreases n - i,
        {
            res.push(values[i] as u16);
            i = i + 1;
        }
        let r = PackedEnum::U16(res);
        assert(r.prefix(n as nat) =~= values@);
        r
    } else {
        let mut res: Vec<u32> = Vec::with_capacity(n);
        let mut i: usize = 0;
        while i < n
            invariant
                n == values@.len(),
                i <= n,
                res@.len() == i,
                forall|j: int| 0 <= j < n ==> #[trigger] values@[j] <= mask,
                mask == U32_MASK,
                forall|k: int| 0 <= k < i ==> #[trigger] res@[k] as usize == values@[k],
            decreases n - i,
        {
            res.push(values[i] as u32);
            i = i + 1;
        }
        let r = PackedEnum::U32(res);
        assert(r.prefix(n as nat) =~= values@);
        r
    }
}

/// Two 4-bit values joined into one byte, the first in the low nibble.
proof fn lemma_nibble_pair(a: u8, b: u8)
    requires
        a <= 15,
        b <= 15,
    ensures
        lo(a | (b << 4u8)) == a,
        hi(a | (b << 4u8)) == b,
        lo(a) == a,
{
    assert((a | (b << 4u8)) % 16 == a && (a | (b << 4u8)) / 16 == b) by (bit_vector)
        requires
            a <= 15,
            b <= 15,
    ;
}

/// Reading a nibble with a mask or a shift gives `lo` and `hi`.
proof fn lemma_nibble_read(b: u8)
    ensures
        (b & 0x0f) as usize == lo(b),
        (b >> 4) as usize == hi(b),
        lo(b) <= 15,
        hi(b) <= 15,
{
    assert(b & 0x0f == b % 16) by (bit_vector);
    assert(b >> 4 == b / 16) by (bit_vector);
}

/// Writing one nibble of a byte keeps the other; a doubled nibble fills both.
pub(crate) proof fn lemma_nibble_write(b: u8, v: u8)
    requires
        v <= 15,
    ensures
        lo((b & 0xf0) | v) == v,
        hi((b & 0xf0) | v) == hi(b),
        lo((b & 0x0f) | (v << 4u8)) == lo(b),
        hi((b & 0x0f) | (v << 4u8)) == v,
        lo(v | (v << 4u8)) == v,
        hi(v | (v << 4u8)) == v,
{
    assert(((b & 0xf0) | v) % 16 == v && ((b & 0xf0) | v) / 16 == b / 16) by (bit_vector)
        requires
            v <= 15,
    ;
    assert(((b & 0x0f) | (v << 4u8)) % 16 == b % 16 && ((b & 0x0f) | (v << 4u8)) / 16 == v)
        by (bit_vector)
        requires
            v <= 15,
    ;
    assert((v | (v << 4u8)) % 16 == v && (v | (v << 4u8)) / 16 == v) by (bit_vector)
        requires
            v <= 15,
    ;
}

} // verus!
