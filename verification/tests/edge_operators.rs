use linq_rs::queryable::flatten_;
use linq_rs::LinqExt;
use std::cell::Cell;

fn upto(a: i32, b: i32) -> Vec<i32> {
    (a..=b).collect()
}

#[test]
fn where_on_empty() {
    let v: Vec<i32> = Vec::<i32>::new().where_(|x| *x > 0);
    assert!(v.is_empty());
}

#[test]
fn select_on_empty() {
    let v: Vec<i32> = Vec::<i32>::new().select(|x| x * 2);
    assert!(v.is_empty());
}

#[test]
fn select_many_on_empty_source() {
    let v: Vec<i32> = Vec::<Vec<i32>>::new().select_many(|x| x);
    assert!(v.is_empty());
}

#[test]
fn select_many_returning_empty_iters_yields_empty() {
    let v: Vec<i32> = vec![1, 2, 3].select_many(|_| Vec::<i32>::new());
    assert!(v.is_empty());
}

#[test]
fn flatten_on_empty() {
    let v: Vec<i32> = flatten_(Vec::<Vec<i32>>::new());
    assert!(v.is_empty());
}

#[test]
fn flatten_mixed_empty_and_nonempty() {
    let v: Vec<i32> = flatten_(vec![vec![], vec![1, 2], vec![], vec![3], vec![]]);
    assert_eq!(v, [1, 2, 3]);
}

#[test]
fn distinct_on_empty() {
    let v: Vec<i32> = Vec::<i32>::new().distinct_partial_eq();
    assert!(v.is_empty());
    let v: Vec<i32> = Vec::<i32>::new().distinct();
    assert!(v.is_empty());
}

#[test]
fn except_on_empty_self() {
    let v: Vec<i32> = Vec::<i32>::new().except_partial_eq(vec![1, 2, 3]);
    assert!(v.is_empty());
    let v: Vec<i32> = Vec::<i32>::new().except(vec![1, 2, 3]);
    assert!(v.is_empty());
}

#[test]
fn intersect_on_empty_self() {
    let v: Vec<i32> = Vec::<i32>::new().intersect_partial_eq(vec![1, 2, 3]);
    assert!(v.is_empty());
    let v: Vec<i32> = Vec::<i32>::new().intersect(vec![1, 2, 3]);
    assert!(v.is_empty());
}

#[test]
fn union_two_empties() {
    let v: Vec<i32> = Vec::<i32>::new().union_partial_eq(Vec::<i32>::new());
    assert!(v.is_empty());
    let v: Vec<i32> = Vec::<i32>::new().union_(Vec::<i32>::new());
    assert!(v.is_empty());
}

#[test]
fn concat_two_empties() {
    let v: Vec<i32> = Vec::<i32>::new().concat_(Vec::<i32>::new());
    assert!(v.is_empty());
}

#[test]
fn any_on_empty_is_false() {
    assert!(!Vec::<i32>::new().any_(|_| true));
}

#[test]
fn all_on_empty_is_vacuously_true() {
    assert!(Vec::<i32>::new().all_(|_| false));
}

#[test]
fn contains_on_empty_is_false() {
    assert!(!Vec::<i32>::new().contains_(&5));
}

#[test]
fn aggregate_on_empty_returns_seed_unchanged() {
    let r = Vec::<i32>::new().aggregate(99, |acc, x| acc + x);
    assert_eq!(r, 99);
}

#[test]
fn count_where_on_empty_is_zero() {
    assert_eq!(Vec::<i32>::new().count_where(|_| true), 0);
}

#[test]
fn min_max_on_empty_are_none() {
    assert_eq!(Vec::<i32>::new().min_(), None);
    assert_eq!(Vec::<i32>::new().max_(), None);
}

#[test]
fn aggregate_with_selector_on_empty_runs_selector_on_seed() {
    let r: i32 = Vec::<i32>::new().aggregate_with_selector(0i32, |acc, x| acc + x, |sum| sum * 2);
    assert_eq!(r, 0);
}

#[test]
fn element_at_out_of_bounds_returns_none() {
    assert_eq!(vec![10, 20].element_at(5), None);
}

#[test]
fn first_or_default_on_empty_is_none() {
    assert_eq!(Vec::<i32>::new().first_or_default(), None);
}

#[test]
fn last_or_default_on_empty_is_none() {
    assert_eq!(Vec::<i32>::new().last_or_default(), None);
}

#[test]
fn join_with_empty_outer_yields_empty() {
    let outer: Vec<(u32, &str)> = vec![];
    let inner = vec![(1u32, "x")];
    let v: Vec<((u32, &str), (u32, &str))> = outer.inner_join_partial_eq(
        inner,
        |(k, _): &(u32, &str)| *k,
        |(k, _): &(u32, &str)| *k,
        |a, b| (a, b),
    );
    assert!(v.is_empty());
}

#[test]
fn join_with_empty_inner_yields_empty() {
    let outer = vec![(1u32, "Alice")];
    let inner: Vec<(u32, &str)> = vec![];
    let v: Vec<((u32, &str), (u32, &str))> = outer.inner_join_partial_eq(
        inner,
        |(k, _): &(u32, &str)| *k,
        |(k, _): &(u32, &str)| *k,
        |a, b| (a, b),
    );
    assert!(v.is_empty());
}

#[test]
fn join_with_no_key_matches_yields_empty() {
    let outer = vec![(1u32, "Alice")];
    let inner = vec![(99u32, "x"), (100, "y")];
    let v: Vec<((u32, &str), (u32, &str))> = outer.inner_join_partial_eq(
        inner,
        |(k, _): &(u32, &str)| *k,
        |(k, _): &(u32, &str)| *k,
        |a, b| (a, b),
    );
    assert!(v.is_empty());
}

#[test]
fn group_join_with_empty_inner_still_yields_every_outer() {
    let outer = vec![(1u32, "Alice"), (2, "Bob")];
    let inner: Vec<(u32, &str)> = vec![];
    let v = outer.group_join_partial_eq(
        inner,
        |(k, _): &(u32, &str)| *k,
        |(k, _): &(u32, &str)| *k,
        |o: (u32, &str), i: Vec<(u32, &str)>| (o, i.len()),
    );
    assert_eq!(v, [((1u32, "Alice"), 0), ((2, "Bob"), 0)]);
}

#[test]
fn group_by_on_empty_is_empty() {
    let v = Vec::<i32>::new().group_by_key_partial_eq(|x: &i32| *x);
    assert!(v.is_empty());
}

#[test]
fn aggregate_by_on_empty_is_empty() {
    let v = Vec::<i32>::new().aggregate_by_partial_eq(|x: &i32| *x, |_: &i32| 0i32, |a: i32, x: i32| a + x);
    assert!(v.is_empty());
}

#[test]
fn skip_zero_yields_all() {
    let v: Vec<_> = vec![1, 2, 3].skip_(0);
    assert_eq!(v, [1, 2, 3]);
}

#[test]
fn skip_usize_max_yields_empty() {
    let v: Vec<i32> = vec![1, 2, 3].skip_(usize::MAX);
    assert!(v.is_empty());
}

#[test]
fn take_zero_yields_empty() {
    let v: Vec<i32> = vec![1, 2, 3].take_(0);
    assert!(v.is_empty());
}

#[test]
fn take_usize_max_yields_all() {
    let v: Vec<_> = vec![1, 2, 3].take_(usize::MAX);
    assert_eq!(v, [1, 2, 3]);
}

#[test]
fn chunk_size_one() {
    let v: Vec<_> = vec![1, 2, 3].chunk(1);
    assert_eq!(v, [vec![1], vec![2], vec![3]]);
}

#[test]
fn chunk_size_larger_than_source() {
    let v: Vec<_> = vec![1, 2, 3].chunk(100);
    assert_eq!(v, [vec![1, 2, 3]]);
}

#[test]
fn filter_project_filter_project_filter() {
    let v: Vec<f64> = upto(1, 20)
        .where_(|x| x % 2 == 0)
        .select(|x| x * x)
        .where_(|x| *x > 50)
        .select(f64::from)
        .where_(|x| *x < 300.0);
    assert_eq!(v, [64.0, 100.0, 144.0, 196.0, 256.0]);
}

#[test]
fn three_level_then_by() {
    let data = vec![(2, "x", 100), (1, "z", 50), (1, "z", 25), (1, "a", 75), (2, "x", 50)];
    let v: Vec<_> = data
        .order_by(|t: &(i32, &str, i32)| t.0)
        .then_by(|t: &(i32, &str, i32)| t.1)
        .then_by(|t: &(i32, &str, i32)| t.2)
        .to_vec();
    assert_eq!(v, [(1, "a", 75), (1, "z", 25), (1, "z", 50), (2, "x", 50), (2, "x", 100)]);
}

#[test]
fn long_pipeline_skip_take_distinct_order() {
    let v: Vec<_> = vec![5, 3, 8, 3, 1, 8, 5, 9, 1, 2, 7, 5]
        .skip_(1)
        .take_(8)
        .distinct()
        .order_by(|x: &i32| *x)
        .to_vec();
    assert_eq!(v, [1, 3, 5, 8, 9]);
}

#[test]
fn group_by_then_select_then_aggregate() {
    let words = vec!["apple", "ant", "banana", "bear", "cherry"];
    let total_chars: usize = words
        .group_by_key_partial_eq(|w: &&str| w.chars().next().unwrap())
        .select(|g| g.elements().iter().map(|w| w.len()).sum::<usize>())
        .aggregate(0usize, |acc, n| acc + n);
    assert_eq!(total_chars, 24);
}

#[test]
fn select_with_mutable_counter_state() {
    let counter = Cell::new(0);
    let v: Vec<_> = upto(1, 5).select(|x| {
        counter.set(counter.get() + 1);
        (counter.get(), x)
    });
    assert_eq!(v, [(1, 1), (2, 2), (3, 3), (4, 4), (5, 5)]);
    assert_eq!(counter.get(), 5);
}

#[test]
fn where_predicate_runs_once_per_item_including_rejected() {
    let calls = Cell::new(0);
    let v: Vec<_> = upto(1, 10).where_(|x| {
        calls.set(calls.get() + 1);
        x % 2 == 0
    });
    assert_eq!(v, [2, 4, 6, 8, 10]);
    assert_eq!(calls.get(), 10);
}

#[test]
fn distinct_works_with_floats() {
    let v: Vec<f64> = vec![1.0, 2.0, 1.0, 3.0, 2.0].distinct_partial_eq();
    assert_eq!(v, [1.0, 2.0, 3.0]);
}

#[test]
fn distinct_keeps_all_nans_because_partial_eq_says_they_differ() {
    let nans: Vec<f64> = vec![f64::NAN, f64::NAN, 1.0, f64::NAN];
    let v: Vec<f64> = nans.distinct_partial_eq();
    assert_eq!(v.len(), 4);
    assert!(v[0].is_nan());
    assert!(v[1].is_nan());
    assert_eq!(v[2], 1.0);
    assert!(v[3].is_nan());
}

#[test]
fn to_lookup_preserves_all_duplicate_key_values() {
    let data = vec![("a", 1), ("a", 2), ("a", 3)];
    let lookup = data.to_lookup(|(k, _): &(&str, i32)| *k);
    assert_eq!(lookup.len(), 1);
    assert_eq!(lookup.get(&"a"), &[("a", 1), ("a", 2), ("a", 3)]);
}

#[test]
fn to_lookup_on_empty_source_has_zero_keys() {
    let data: Vec<(i32, i32)> = vec![];
    let lookup = data.to_lookup(|(k, _): &(i32, i32)| *k);
    assert_eq!(lookup.len(), 0);
    assert!(!lookup.contains_key(&1));
    assert_eq!(lookup.get(&1), &[]);
}

#[test]
fn to_hashmap_last_write_wins_on_duplicate_keys() {
    let data = vec![("a", 1), ("a", 2), ("a", 3)];
    let map = data.to_hashmap(|(k, _): &(&str, i32)| *k);
    assert_eq!(map.len(), 1);
    assert_eq!(map[&"a"], ("a", 3));
}

#[test]
fn order_by_on_empty_yields_empty() {
    let v: Vec<i32> = Vec::<i32>::new().order_by(|x: &i32| *x).to_vec();
    assert!(v.is_empty());
}

#[test]
fn order_by_already_sorted_input_is_stable() {
    let v: Vec<_> = vec![1, 2, 3, 4, 5].order_by(|x: &i32| *x).to_vec();
    assert_eq!(v, [1, 2, 3, 4, 5]);
}

#[test]
fn reverse_on_empty() {
    let v: Vec<i32> = Vec::<i32>::new().reverse();
    assert!(v.is_empty());
}

#[test]
fn reverse_on_single_element() {
    let v: Vec<_> = vec![42].reverse();
    assert_eq!(v, [42]);
}

#[test]
fn reduce_on_single_element_returns_that_element() {
    let r = vec![42].reduce_(|a, b| a + b);
    assert_eq!(r, Some(42));
}

#[test]
fn zip3_with_one_empty_yields_empty() {
    let v: Vec<(i32, i32, i32)> = vec![1, 2, 3].zip3(Vec::<i32>::new(), vec![10, 20, 30], |a, b, c| (a, b, c));
    assert!(v.is_empty());
}

#[test]
fn sequence_equal_two_empties_is_true() {
    assert!(Vec::<i32>::new().sequence_equal(Vec::<i32>::new()));
}

#[test]
fn sequence_equal_self_longer_is_false() {
    assert!(!vec![1, 2, 3].sequence_equal(vec![1, 2]));
}

#[test]
fn sequence_equal_other_longer_is_false() {
    assert!(!vec![1, 2].sequence_equal(vec![1, 2, 3]));
}

#[test]
fn default_if_empty_then_other_ops_compose() {
    let v: Vec<_> = Vec::<i32>::new().default_if_empty(7).select(|x| x * 10);
    assert_eq!(v, [70]);
}

#[test]
fn take_last_then_skip_last_compose() {
    let v: Vec<_> = upto(1, 10).take_last(5).skip_last(2);
    assert_eq!(v, [6, 7, 8]);
}
