use linq_rs::LinqExt;

#[test]
fn test_range_basic() {
    let v: Vec<_> = linq_rs::range(1, 5);
    assert_eq!(v, [1, 2, 3, 4, 5]);
}

#[test]
fn test_range_zero_count() {
    let v: Vec<i32> = linq_rs::range(0, 0);
    assert!(v.is_empty());
}

#[test]
fn test_range_negative_start() {
    let v: Vec<_> = linq_rs::range(-2, 5);
    assert_eq!(v, [-2, -1, 0, 1, 2]);
}

#[test]
fn test_repeat_basic() {
    let v: Vec<_> = linq_rs::repeat("hi", 3);
    assert_eq!(v, ["hi", "hi", "hi"]);
}

#[test]
fn test_repeat_zero() {
    let v: Vec<i32> = linq_rs::repeat(42, 0);
    assert!(v.is_empty());
}

#[test]
fn test_empty_source() {
    let v: Vec<i32> = linq_rs::empty();
    assert!(v.is_empty());
}

#[test]
fn test_of_type_drops_oversized() {
    let v: Vec<i32> = vec![1i64, 2, i64::MAX, 3].of_type::<i32>();
    assert_eq!(v, [1, 2, 3]);
}

#[test]
fn test_of_type_all_match() {
    let v: Vec<i32> = vec![1i64, 2, 3].of_type::<i32>();
    assert_eq!(v, [1, 2, 3]);
}

#[test]
fn test_cast_widening() {
    let v: Vec<i64> = vec![1i32, 2, 3].cast::<i64>();
    assert_eq!(v, [1i64, 2, 3]);
}

#[test]
fn test_except_hashed() {
    let v: Vec<_> = vec![1, 2, 3, 4, 5].except(vec![2, 4]);
    assert_eq!(v, [1, 3, 5]);
}

#[test]
fn test_intersect_hashed() {
    let v: Vec<_> = vec![1, 2, 3, 4].intersect(vec![2, 4, 6]);
    assert_eq!(v, [2, 4]);
}

#[test]
fn test_union_hashed() {
    let v: Vec<_> = vec![1, 2, 3].union_(vec![2, 3, 4, 5]);
    assert_eq!(v, [1, 2, 3, 4, 5]);
}

#[test]
fn test_group_by_hashed_preserves_insertion_order() {
    let words = vec!["cherry", "apple", "ant", "banana", "bear"];
    let groups = words.group_by_key(|w: &&str| w.chars().next().unwrap());
    assert_eq!(groups.len(), 3);
    assert_eq!(*groups[0].key(), 'c');
    assert_eq!(groups[0].elements(), ["cherry"]);
    assert_eq!(*groups[1].key(), 'a');
    assert_eq!(groups[1].elements(), ["apple", "ant"]);
    assert_eq!(*groups[2].key(), 'b');
    assert_eq!(groups[2].elements(), ["banana", "bear"]);
}

#[test]
fn test_count_by_hashed() {
    let words = vec!["apple", "ant", "banana", "bear", "cherry"];
    let mut counts = words.count_by(|w: &&str| w.chars().next().unwrap());
    counts.sort_by_key(|(k, _)| *k);
    assert_eq!(counts, [('a', 2), ('b', 2), ('c', 1)]);
}

#[test]
fn test_aggregate_by_hashed() {
    let data = vec![("a", 1), ("b", 2), ("a", 3), ("b", 10)];
    let mut totals = data.aggregate_by(
        |(k, _): &(&str, i32)| *k,
        |_: &&str| 0,
        |acc: i32, (_, v): (&str, i32)| acc + v,
    );
    totals.sort_by_key(|(k, _)| *k);
    assert_eq!(totals, [("a", 4), ("b", 12)]);
}

#[test]
fn test_join_hashed() {
    let customers = vec![(1u32, "Alice"), (2, "Bob"), (3, "Carol")];
    let orders = vec![(1u32, "Laptop"), (1, "Mouse"), (2, "Keyboard")];
    let mut results: Vec<String> = customers.inner_join(
        orders,
        |(id, _): &(u32, &str)| *id,
        |(id, _): &(u32, &str)| *id,
        |(_, name): (u32, &str), (_, product): (u32, &str)| format!("{name} bought {product}"),
    );
    results.sort();
    assert_eq!(
        results,
        [
            "Alice bought Laptop",
            "Alice bought Mouse",
            "Bob bought Keyboard"
        ]
    );
}

#[test]
fn test_group_join_hashed() {
    let departments = vec![(1u32, "Engineering"), (2u32, "Sales")];
    let employees = vec![(1u32, "Alice"), (1, "Bob"), (2, "Carol")];
    let result = departments.group_join(
        employees,
        |(id, _): &(u32, &str)| *id,
        |(dept_id, _): &(u32, &str)| *dept_id,
        |(_, dept): (u32, &str), emps: Vec<(u32, &str)>| {
            let names: Vec<_> = emps.into_iter().map(|(_, n)| n).collect();
            (dept, names)
        },
    );
    assert_eq!(result[0], ("Engineering", vec!["Alice", "Bob"]));
    assert_eq!(result[1], ("Sales", vec!["Carol"]));
}

#[test]
fn test_sum_by() {
    let pairs = vec![("a", 1), ("b", 2), ("c", 3)];
    let total: i32 = pairs.sum_by(|(_, n)| n);
    assert_eq!(total, 6);
}

#[test]
fn test_sum_by_empty() {
    let total: i32 = Vec::<(i32, i32)>::new().sum_by(|(_, n)| n);
    assert_eq!(total, 0);
}

#[test]
fn sum_of_wide_integers_keeps_every_digit() {
    let v: Vec<i64> = vec![4_000_000_000, 5_000_000_000, -1];
    assert_eq!(v.sum_(), 8_999_999_999i64);
    let u: Vec<u64> = vec![u64::MAX - 1, 1];
    assert_eq!(u.sum_(), u64::MAX);
}

#[test]
fn text_keys_order_by_bytes() {
    let words: Vec<String> = vec!["pear".into(), "Apple".into(), "apple".into(), "banana".into()];
    let v: Vec<String> = words.order_by(|w: &String| w.clone()).to_vec();
    assert_eq!(v, ["Apple", "apple", "banana", "pear"]);
    let d: Vec<&str> = vec!["b", "ab", "a", ""].order_descending().to_vec();
    assert_eq!(d, ["b", "ab", "a", ""]);
}

#[test]
fn pairs_order_lexicographically() {
    let v: Vec<(i32, &str)> = vec![(2, "a"), (1, "z"), (1, "b"), (2, "a")].order().to_vec();
    assert_eq!(v, [(1, "b"), (1, "z"), (2, "a"), (2, "a")]);
}

fn by_name_within<Q: linq_rs::ThenBy<(&'static str, i32)>>(q: Q) -> linq_rs::OrderedQueryable<(&'static str, i32)> {
    q.then_by(|(name, _): &(&'static str, i32)| *name)
}

#[test]
fn then_by_through_the_trait() {
    let data = vec![("Bob", 2), ("Alice", 2), ("Charlie", 1)];
    let v = by_name_within(data.order_by(|(_, age): &(&str, i32)| *age)).to_vec();
    assert_eq!(v, [("Charlie", 1), ("Alice", 2), ("Bob", 2)]);
}
