use arbitrary_precision::Integer;

#[test]
fn from_iter_removes_leading_zeros() {
    let num = Integer::from_iter(vec![0, 5, 1, 0, 0]);
    let expected = Integer::from_iter(vec![0, 5, 1]);
    assert_eq!(num, expected);
}

#[test]
fn add_no_carry() {
    let a = Integer::from_iter(vec![3, 6]);
    let b = Integer::from_iter(vec![6, 3]);
    let expected = Integer::from_iter(vec![9, 9]);
    assert_eq!(a + b, expected);
}

#[test]
fn add_with_carry() {
    let a = Integer::from_iter(vec![4, 6]);
    let b = Integer::from_iter(vec![6, 3]);
    let expected = Integer::from_iter(vec![0, 0, 1]);
    assert_eq!(a + b, expected);
}

#[test]
fn add_more_digits_lhs() {
    let a = Integer::from_iter(vec![2, 9, 4, 5]);
    let b = Integer::from_iter(vec![9, 9]);
    let expected = Integer::from_iter(vec![1, 9, 5, 5]);
    assert_eq!(a + b, expected);
}

#[test]
fn add_more_digits_rhs() {
    let a = Integer::from_iter(vec![7, 8, 5]);
    let b = Integer::from_iter(vec![4, 7, 0, 3, 9]);
    let expected = Integer::from_iter(vec![1, 6, 6, 3, 9]);
    assert_eq!(a + b, expected);
}

#[test]
fn mul() {
    let a = Integer::from_iter(vec![8, 3, 6, 7]);
    let b = Integer::from_iter(vec![4, 3, 2]);
    let expected = Integer::from_iter(vec![2, 9, 2, 7, 8, 7, 1]);
    assert_eq!(a * b, expected);
}

#[test]
fn pow_zero() {
    let a = Integer::from_iter(vec![2]);
    let e = 0;
    let expected = Integer::from_iter(vec![1]);
    assert_eq!(a.pow(e), expected);
}

#[test]
fn pow_one() {
    let a = Integer::from_iter(vec![2]);
    let e = 1;
    let expected = Integer::from_iter(vec![2]);
    assert_eq!(a.pow(e), expected);
}

#[test]
fn pow_two() {
    let a = Integer::from_iter(vec![2]);
    let e = 2;
    let expected = Integer::from_iter(vec![4]);
    assert_eq!(a.pow(e), expected);
}

#[test]
fn pow_big() {
    let a = Integer::from_iter(vec![2]);
    let e = 30;
    let expected = Integer::from_iter(vec![4, 2, 8, 1, 4, 7, 3, 7, 0, 1]);
    assert_eq!(a.pow(e), expected);
}
