use linq_rs::LinqExt;

#[test]
fn cast_construction_does_not_panic_on_empty() {
    let v: Vec<i32> = Vec::<i64>::new().cast::<i32>();
    assert!(v.is_empty());
}

#[test]
fn group_by_hashed_on_empty_is_empty() {
    let v = Vec::<i32>::new().group_by_key(|x: &i32| *x);
    assert!(v.is_empty());
}

#[test]
fn of_type_filters_all_out_when_nothing_fits() {
    let big: Vec<i64> = vec![i64::MAX, i64::MAX - 1, i64::MAX - 2];
    let v: Vec<i32> = big.of_type::<i32>();
    assert!(v.is_empty());
}

#[test]
fn range_negative_start() {
    let v: Vec<_> = linq_rs::range(-3, 5);
    assert_eq!(v, [-3, -2, -1, 0, 1]);
}

#[test]
fn range_zero_count_yields_empty() {
    let v: Vec<_> = linq_rs::range(100, 0);
    assert!(v.is_empty());
}

#[test]
fn sum_on_empty_is_zero() {
    let s: i32 = Vec::<i32>::new().sum_();
    assert_eq!(s, 0);
}
