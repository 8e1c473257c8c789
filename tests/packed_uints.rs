use packed_uints::{PackedEnum, PackedUints};

fn check_equal(usizes: &PackedUints, values: &[usize]) {
    for (i, value) in values.iter().enumerate() {
        assert_eq!(*value, usizes.get(i));
    }
}

fn roundtrip(usizes: &mut PackedUints, values: &[usize]) {
    for (i, value) in values.iter().enumerate() {
        usizes.set(i, *value);
    }
    check_equal(usizes, values);
}

/// A fixed pseudo-random sequence of `n` values below `bound`.
fn sample(n: usize, bound: u64, seed: u64) -> Vec<usize> {
    let mut state = seed;
    let mut out = Vec::new();
    for _ in 0..n {
        state = state.wrapping_mul(6364136223846793005).wrapping_add(1442695040888963407);
        out.push(((state >> 33) % bound) as usize);
    }
    out
}

fn check_set_range(data_len: usize, start: usize, end: usize, value: usize) {
    let mut usizes = PackedUints::new(data_len);
    let mut values = vec![0; data_len];
    for i in start..end {
        values[i] = value;
    }
    usizes.set_range(start, end, value);
    check_equal(&usizes, &values);
}

#[test]
fn test_from_iter() {
    let values = sample(100, 16, 1);
    let usizes = PackedUints::from(&values);
    let items = usizes.iter();
    assert_eq!(items.len(), values.len());
    for (a, b) in std::iter::zip(values, items) {
        assert_eq!(a, b);
    }
}

#[test]
fn test_u4() {
    let mut usizes = PackedUints::new(100);
    let values = sample(100, 16, 2);
    roundtrip(&mut usizes, &values);
    assert_eq!(usizes.mask, 15);
}

#[test]
fn test_set_range_1() {
    check_set_range(100, 0, 32, 7);
}

#[test]
fn test_set_range_2() {
    check_set_range(100, 1, 32, 7);
}

#[test]
fn test_set_range_3() {
    check_set_range(100, 1, 31, 7);
}

#[test]
fn test_set_range_4() {
    check_set_range(100, 0, 31, 7);
}

#[test]
fn test_reallocation() {
    let mut usizes = PackedUints::new(100);
    let values = sample(100, u32::MAX as u64, 3);
    roundtrip(&mut usizes, &values);
}

#[test]
fn from_small_values_reads_back() {
    let usizes = PackedUints::from(&[3, 7, 1, 9]);
    assert_eq!(usizes.get(2), 1);
    assert_eq!(usizes.iter(), vec![3, 7, 1, 9]);
    assert_eq!(usizes.mask, 15);
    assert!(matches!(usizes.data, PackedEnum::U4(_)));
}

#[test]
fn from_odd_length_reads_back() {
    let usizes = PackedUints::from(&[1, 2, 3]);
    assert_eq!(usizes.length, 3);
    assert_eq!(usizes.iter(), vec![1, 2, 3]);
}

#[test]
fn set_wide_value_upscales_to_sixteen_bits() {
    let mut usizes = PackedUints::new(100);
    usizes.set(50, 300);
    assert_eq!(usizes.get(50), 300);
    assert_eq!(usizes.mask, 65535);
    assert!(matches!(usizes.data, PackedEnum::U16(_)));
    for i in 0..100 {
        if i != 50 {
            assert_eq!(usizes.get(i), 0);
        }
    }
}

#[test]
fn filled_then_set_range_middle() {
    let mut usizes = PackedUints::filled(8, 5);
    usizes.set_range(2, 6, 9);
    assert_eq!(usizes.iter(), vec![5, 5, 9, 9, 9, 9, 5, 5]);
}

#[test]
fn set_range_odd_start_odd_last() {
    let mut usizes = PackedUints::new(100);
    usizes.set_range(1, 31, 7);
    assert_eq!(usizes.get(0), 0);
    for i in 1..31 {
        assert_eq!(usizes.get(i), 7);
    }
    for i in 31..100 {
        assert_eq!(usizes.get(i), 0);
    }
}

#[test]
fn from_empty_has_no_elements() {
    let usizes = PackedUints::from(&[]);
    assert_eq!(usizes.length, 0);
    assert_eq!(usizes.mask, 15);
    assert!(usizes.iter().is_empty());
}

#[test]
fn width_maximum_needs_no_upscale() {
    let mut usizes = PackedUints::filled(4, 200);
    assert_eq!(usizes.mask, 255);
    usizes.set(1, 255);
    assert_eq!(usizes.mask, 255);
    assert!(matches!(usizes.data, PackedEnum::U8(_)));
    let mut wide = PackedUints::filled(3, 70000);
    wide.set(0, u32::MAX as usize);
    assert_eq!(wide.mask, 4294967295);
    assert_eq!(wide.get(0), u32::MAX as usize);
    let mut nibbles = PackedUints::new(5);
    nibbles.set(4, 15);
    assert_eq!(nibbles.mask, 15);
    assert_eq!(nibbles.iter(), vec![0, 0, 0, 0, 15]);
}

#[test]
fn filled_picks_narrowest_width() {
    assert_eq!(PackedUints::filled(3, 15).mask, 15);
    assert_eq!(PackedUints::filled(3, 16).mask, 255);
    assert_eq!(PackedUints::filled(3, 256).mask, 65535);
    assert_eq!(PackedUints::filled(3, 65536).mask, 4294967295);
    assert_eq!(PackedUints::filled(5, 11).iter(), vec![11; 5]);
    assert_eq!(PackedUints::filled(3, 65536).iter(), vec![65536; 3]);
}

#[test]
fn from_picks_width_of_largest() {
    assert_eq!(PackedUints::from(&[1, 16, 2]).mask, 255);
    assert_eq!(PackedUints::from(&[1, 256, 2]).mask, 65535);
    let big = PackedUints::from(&[70000, 3]);
    assert_eq!(big.mask, 4294967295);
    assert_eq!(big.iter(), vec![70000, 3]);
}

#[test]
fn upscale_keeps_earlier_values() {
    let mut usizes = PackedUints::from(&[1, 2, 3, 4, 5]);
    usizes.set(2, 1000);
    assert_eq!(usizes.iter(), vec![1, 2, 1000, 4, 5]);
    usizes.set(4, 100000);
    assert_eq!(usizes.iter(), vec![1, 2, 1000, 4, 100000]);
    assert_eq!(usizes.mask, 4294967295);
    usizes.set(0, 7);
    assert_eq!(usizes.mask, 4294967295);
}

#[test]
fn set_range_upscales_and_keeps_rest() {
    let mut usizes = PackedUints::from(&[1, 2, 3, 4, 5, 6]);
    usizes.set_range(1, 3, 500);
    assert_eq!(usizes.iter(), vec![1, 500, 500, 4, 5, 6]);
    assert_eq!(usizes.mask, 65535);
}

#[test]
fn set_range_boundaries_at_four_bits() {
    for start in 0..7 {
        for end in start..7 {
            let mut usizes = PackedUints::filled(7, 3);
            usizes.set_range(start, end, 12);
            for k in 0..7 {
                let want = if start <= k && k < end { 12 } else { 3 };
                assert_eq!(usizes.get(k), want);
            }
        }
    }
}

#[test]
fn mask_of_each_width() {
    assert_eq!(PackedEnum::U4(vec![0]).mask(), 15);
    assert_eq!(PackedEnum::U8(vec![0]).mask(), 255);
    assert_eq!(PackedEnum::U16(vec![0]).mask(), 65535);
    assert_eq!(PackedEnum::U32(vec![0]).mask(), 4294967295);
}
