use arbitrary_precision::Integer;

#[test]
fn from_u8() {
    let integer = Integer::from(u8::MAX);
    let expected = Integer::from_iter(vec![5, 5, 2]);
    assert_eq!(integer, expected);
}

#[test]
fn from_u16() {
    let integer = Integer::from(u16::MAX);
    let expected = Integer::from_iter(vec![5, 3, 5, 5, 6]);
    assert_eq!(integer, expected);
}

#[test]
fn from_u32() {
    let integer = Integer::from(u32::MAX);
    let expected = Integer::from_iter(vec![5, 9, 2, 7, 6, 9, 4, 9, 2, 4]);
    assert_eq!(integer, expected);
}

#[test]
fn from_u64() {
    let integer = Integer::from(u64::MAX);
    let expected = Integer::from_iter(vec![
        5, 1, 6, 1, 5, 5, 9, 0, 7, 3, 7, 0, 4, 4, 7, 6, 4, 4, 8, 1,
    ]);
    assert_eq!(integer, expected);
}

#[test]
fn from_u128() {
    let integer = Integer::from(u128::MAX);
    let expected = Integer::from_iter(vec![
        5, 5, 4, 1, 1, 2, 8, 6, 7, 1, 3, 4, 7, 0, 6, 4, 7, 3, 3, 6, 4, 3, 6, 4, 8, 3, 9, 0, 2, 9,
        6, 6, 3, 2, 8, 2, 0, 4, 3,
    ]);
    assert_eq!(integer, expected);
}

#[test]
fn from_zero_is_canonical_zero() {
    assert_eq!(Integer::from(0u8), Integer::zero());
    assert_eq!(Integer::from(0u128).digits(), 1);
    assert_eq!(Integer::from_u128(0), Integer::from_iter(vec![0]));
}

#[test]
fn from_usize_and_small_values() {
    assert_eq!(Integer::from(7usize), Integer::from_iter(vec![7]));
    assert_eq!(Integer::from(10u32), Integer::from_iter(vec![0, 1]));
    assert_eq!(Integer::from(1000u64).digits(), 4);
}

#[test]
fn round_trip_reconstructs_value() {
    let n: u128 = 9_876_543_210_123;
    let digits = Integer::from(n).to_string().replace(',', "");
    assert_eq!(digits, n.to_string());
}
