use arbitrary_precision::{Digit, Integer};

fn num(n: u128) -> Integer {
    Integer::from(n)
}

#[test]
fn digit_plus_and_times() {
    let (sum, carry) = Digit::from(7).plus(Digit::from(5));
    assert_eq!((sum.to_u8(), carry.to_u8()), (2, 1));
    let (sum, carry) = Digit::from(4).plus(Digit::from(5));
    assert_eq!((sum.to_u8(), carry.to_u8()), (9, 0));
    let (prod, carry) = Digit::from(9).times(Digit::from(9));
    assert_eq!((prod.to_u8(), carry.to_u8()), (1, 8));
    let (prod, carry) = Digit::from(0).times(Digit::from(7));
    assert_eq!((prod.to_u8(), carry.to_u8()), (0, 0));
}

#[test]
fn digit_kernels_over_full_range() {
    for a in 0..10u8 {
        for b in 0..10u8 {
            let (s, c) = Digit::from(a).plus(Digit::from(b));
            assert_eq!(s.to_u8() + 10 * c.to_u8(), a + b);
            assert!(s.to_u8() < 10 && c.to_u8() <= 1);
            let (p, c) = Digit::from(a).times(Digit::from(b));
            assert_eq!(p.to_u8() + 10 * c.to_u8(), a * b);
            assert!(p.to_u8() < 10 && c.to_u8() <= 8);
        }
    }
}

#[test]
fn canonical_forms() {
    assert_eq!(Integer::from_iter(vec![]), Integer::zero());
    assert_eq!(Integer::from_iter(vec![0, 0, 0]), Integer::zero());
    assert_eq!(Integer::from_iter(vec![0, 0, 0]).digits(), 1);
    assert_eq!(Integer::zero().digits(), 1);
    assert_eq!(Integer::one(), Integer::from_iter(vec![1]));
    assert_eq!((Integer::zero() + Integer::zero()).digits(), 1);
    assert_eq!((num(12345) * Integer::zero()).digits(), 1);
}

#[test]
fn normalization_is_idempotent() {
    let once = Integer::from_iter(vec![3, 0, 7, 0, 0]);
    let again = Integer::from_iter(vec![3, 0, 7]);
    assert_eq!(once, again);
    assert_eq!(once.digits(), 3);
}

#[test]
fn additive_identity() {
    assert_eq!(num(98765) + Integer::zero(), num(98765));
    assert_eq!(Integer::zero() + Integer::zero(), Integer::zero());
}

#[test]
fn additive_commutativity_and_associativity() {
    assert_eq!(num(999) + num(1), num(1) + num(999));
    assert_eq!(num(999) + num(1), num(1000));
    assert_eq!(
        (num(123456789) + num(987654321)) + num(5),
        num(123456789) + (num(987654321) + num(5))
    );
    assert_eq!(num(u128::MAX) + num(1), Integer::from_iter(vec![
        6, 5, 4, 1, 1, 2, 8, 6, 7, 1, 3, 4, 7, 0, 6, 4, 7, 3, 3, 6, 4, 3, 6, 4, 8, 3, 9, 0, 2, 9,
        6, 6, 3, 2, 8, 2, 0, 4, 3,
    ]));
}

#[test]
fn multiplicative_identity_and_annihilator() {
    assert_eq!(num(4321) * Integer::one(), num(4321));
    assert_eq!(num(4321) * Integer::zero(), Integer::zero());
    assert_eq!(Integer::zero() * num(4321), Integer::zero());
}

#[test]
fn multiplicative_laws() {
    assert_eq!(num(7638) * num(234), num(234) * num(7638));
    assert_eq!(num(7638) * num(234), num(1787292));
    assert_eq!((num(12) * num(34)) * num(56), num(12) * (num(34) * num(56)));
    assert_eq!(num(12) * (num(34) + num(56)), num(12) * num(34) + num(12) * num(56));
    assert_eq!(num(u64::MAX as u128) * num(u64::MAX as u128), num(u64::MAX as u128 * u64::MAX as u128));
}

#[test]
fn large_product() {
    let product = num(u128::MAX) * num(u128::MAX);
    assert_eq!(product.digits(), 78);
    let text = product.to_string();
    assert!(text.starts_with("115,792,089,237,316,195,423,570,985,008,"));
    assert!(text.ends_with(",217,025"));
}

#[test]
fn exponentiation_base_cases() {
    assert_eq!(num(0).pow(0), Integer::one());
    assert_eq!(num(123).pow(0), Integer::one());
    assert_eq!(num(123).pow(1), num(123));
    assert_eq!(num(0).pow(5), Integer::zero());
}

#[test]
fn exponentiation_recurrence() {
    for n in 0..6usize {
        assert_eq!(num(7).pow(n + 1), num(7).pow(n) * num(7));
    }
    assert_eq!(num(3).pow(4), num(81));
    assert_eq!(num(10).pow(20), num(100_000_000_000_000_000_000));
}

#[test]
fn rendering_groups_digits() {
    assert_eq!(Integer::from_iter(vec![5, 4, 3, 2, 1]).to_string(), "12,345");
    assert_eq!(Integer::zero().to_string(), "0");
    assert_eq!(num(123).to_string(), "123");
    assert_eq!(num(1000).to_string(), "1,000");
    assert_eq!(num(1234567).to_string(), "1,234,567");
    assert_eq!(num(1073741824).to_string(), "1,073,741,824");
    assert_eq!(num(2).pow(30).to_string(), "1,073,741,824");
}
