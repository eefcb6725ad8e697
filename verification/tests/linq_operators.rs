use linq_rs::adaptors::{Reverse, Select, Skip, Take, Zip};
use linq_rs::queryable::flatten_;
use linq_rs::LinqExt;

fn upto(a: i32, b: i32) -> Vec<i32> {
    (a..=b).collect()
}

fn first_char(w: &&str) -> char {
    w.chars().next().unwrap()
}

#[test]
fn linq_tests_test_where_select() {
    let result: Vec<_> = upto(1, 10).where_(|x| x % 2 == 0).select(|x| x * x);
    assert_eq!(result, [4, 16, 36, 64, 100]);
}

#[test]
fn linq_tests_test_where_chained_twice() {
    let result: Vec<_> = upto(1, 20).where_(|x| x % 2 == 0).where_(|x| x % 3 == 0);
    assert_eq!(result, [6, 12, 18]);
}

#[test]
fn linq_tests_test_select_many() {
    let data = vec![vec![1, 2, 3], vec![4, 5], vec![6]];
    let flat: Vec<_> = data.select_many(|v| v);
    assert_eq!(flat, [1, 2, 3, 4, 5, 6]);
}

#[test]
fn linq_tests_test_flatten_() {
    let data = vec![vec![1, 2], vec![3, 4], vec![5]];
    let flat: Vec<_> = flatten_(data);
    assert_eq!(flat, [1, 2, 3, 4, 5]);
}

#[test]
fn linq_tests_test_skip_take() {
    let result: Vec<_> = upto(1, 10).skip_(3).take_(4);
    assert_eq!(result, [4, 5, 6, 7]);
}

#[test]
fn linq_tests_test_skip_while() {
    let result: Vec<_> = upto(1, 10).skip_while_(|x| *x < 5);
    assert_eq!(result, [5, 6, 7, 8, 9, 10]);
}

#[test]
fn linq_tests_test_take_while() {
    let result: Vec<_> = upto(1, 10).take_while_(|x| *x < 6);
    assert_eq!(result, [1, 2, 3, 4, 5]);
}

#[test]
fn linq_tests_test_chunk_even() {
    let chunks: Vec<_> = upto(1, 6).chunk(2);
    assert_eq!(chunks, [vec![1, 2], vec![3, 4], vec![5, 6]]);
}

#[test]
fn linq_tests_test_chunk_uneven() {
    let chunks: Vec<_> = upto(1, 7).chunk(3);
    assert_eq!(chunks, [vec![1, 2, 3], vec![4, 5, 6], vec![7]]);
}

#[test]
fn linq_tests_test_distinct() {
    let d: Vec<_> = vec![3, 1, 2, 1, 3, 4].distinct_partial_eq();
    assert_eq!(d, [3, 1, 2, 4]);
}

#[test]
fn linq_tests_test_distinct_by() {
    let words = vec!["apple", "ant", "banana", "bear"];
    let d: Vec<_> = words.distinct_by_partial_eq(first_char);
    assert_eq!(d, ["apple", "banana"]);
}

#[test]
fn linq_tests_test_except() {
    let result: Vec<_> = vec![1, 2, 3, 4, 5].except_partial_eq(vec![2, 4]);
    assert_eq!(result, [1, 3, 5]);
}

#[test]
fn linq_tests_test_intersect() {
    let result: Vec<_> = vec![1, 2, 3, 4].intersect_partial_eq(vec![2, 4, 6]);
    assert_eq!(result, [2, 4]);
}

#[test]
fn linq_tests_test_union() {
    let result: Vec<_> = vec![1, 2, 3].union_partial_eq(vec![2, 3, 4, 5]);
    assert_eq!(result, [1, 2, 3, 4, 5]);
}

#[test]
fn linq_tests_test_order_by() {
    let result: Vec<_> = vec![3, 1, 4, 1, 5, 9, 2].order_by(|x: &i32| *x).to_vec();
    assert_eq!(result, [1, 1, 2, 3, 4, 5, 9]);
}

#[test]
fn linq_tests_test_order_by_descending() {
    let result: Vec<_> = vec![3, 1, 4, 1, 5].order_by_descending(|x: &i32| *x).to_vec();
    assert_eq!(result, [5, 4, 3, 1, 1]);
}

#[test]
fn linq_tests_test_then_by() {
    let data = vec![("Bob", 2), ("Alice", 2), ("Charlie", 1)];
    let result: Vec<_> = data
        .order_by(|(_, age): &(&str, i32)| *age)
        .then_by(|(name, _): &(&str, i32)| *name)
        .to_vec();
    assert_eq!(result, [("Charlie", 1), ("Alice", 2), ("Bob", 2)]);
}

#[test]
fn linq_tests_test_reverse() {
    let result: Vec<_> = upto(1, 5).reverse();
    assert_eq!(result, [5, 4, 3, 2, 1]);
}

#[test]
fn linq_tests_test_aggregate() {
    let product = upto(1, 5).aggregate(1, |acc, x| acc * x);
    assert_eq!(product, 120);
}

#[test]
fn linq_tests_test_count_where() {
    let n = upto(1, 20).count_where(|x| x % 3 == 0);
    assert_eq!(n, 6);
}

#[test]
fn linq_tests_test_min_max() {
    let data = [5, 1, 8, 2, 9, 3];
    assert_eq!(data.to_vec().min_(), Some(1));
    assert_eq!(data.to_vec().max_(), Some(9));
}

#[test]
fn linq_tests_test_first_or_default() {
    assert_eq!(upto(1, 5).first_or_default(), Some(1));
    assert_eq!(Vec::<i32>::new().first_or_default(), None);
}

#[test]
fn linq_tests_test_first_where() {
    let v = upto(1, 10).first_where(|x| *x > 5);
    assert_eq!(v, Some(6));
}

#[test]
fn linq_tests_test_last_or_default() {
    assert_eq!(upto(1, 5).last_or_default(), Some(5));
}

#[test]
fn linq_tests_test_element_at() {
    let v = vec![10, 20, 30, 40];
    assert_eq!(v.element_at(2), Some(30));
}

#[test]
fn linq_tests_test_any_all() {
    assert!(upto(1, 10).any_(|x| x > 5));
    assert!(!upto(1, 10).any_(|x| x > 100));
    assert!(upto(1, 10).all_(|x| x > 0));
    assert!(!upto(1, 10).all_(|x| x > 5));
}

#[test]
fn linq_tests_test_contains() {
    assert!(vec![1, 2, 3].contains_(&2));
    assert!(!vec![1, 2, 3].contains_(&5));
}

#[test]
fn linq_tests_test_inner_join() {
    let customers = vec![(1u32, "Alice"), (2, "Bob"), (3, "Carol")];
    let orders = vec![(1u32, "Laptop"), (1, "Mouse"), (2, "Keyboard")];
    let mut results: Vec<String> = customers.inner_join_partial_eq(
        orders,
        |(id, _): &(u32, &str)| *id,
        |(id, _): &(u32, &str)| *id,
        |(_, name): (u32, &str), (_, product): (u32, &str)| format!("{name} bought {product}"),
    );
    results.sort();
    assert_eq!(results, ["Alice bought Laptop", "Alice bought Mouse", "Bob bought Keyboard"]);
}

#[test]
fn linq_tests_test_group_join() {
    let departments = vec![(1u32, "Engineering"), (2u32, "Sales")];
    let employees = vec![(1u32, "Alice"), (1, "Bob"), (2, "Carol")];
    let result = departments.group_join_partial_eq(
        employees,
        |(id, _): &(u32, &str)| *id,
        |(dept_id, _): &(u32, &str)| *dept_id,
        |(_, dept): (u32, &str), emps: Vec<(u32, &str)>| {
            let names: Vec<_> = emps.into_iter().map(|(_, n)| n).collect();
            (dept, names)
        },
    );
    assert_eq!(result[0], ("Engineering", vec!["Alice", "Bob"]));
    assert_eq!(result[1], ("Sales", vec!["Carol"]));
}

#[test]
fn linq_tests_test_group_by() {
    let words = vec!["apple", "ant", "banana", "bear", "cherry"];
    let mut groups = words.group_by_key_partial_eq(first_char);
    groups.sort_by_key(|g| *g.key());
    assert_eq!(*groups[0].key(), 'a');
    assert_eq!(groups[0].elements(), ["apple", "ant"]);
    assert_eq!(*groups[1].key(), 'b');
    assert_eq!(groups[1].elements(), ["banana", "bear"]);
    assert_eq!(*groups[2].key(), 'c');
    assert_eq!(groups[2].elements(), ["cherry"]);
}

#[test]
fn linq_tests_test_to_lookup() {
    let data = vec![("a", 1), ("b", 2), ("a", 3), ("c", 4), ("b", 5)];
    let lookup = data.to_lookup(|(k, _): &(&str, i32)| *k);
    assert_eq!(lookup.get(&"a"), &[("a", 1), ("a", 3)]);
    assert_eq!(lookup.get(&"b"), &[("b", 2), ("b", 5)]);
    assert_eq!(lookup.get(&"c"), &[("c", 4)]);
    assert_eq!(lookup.get(&"z"), &[]);
    assert!(lookup.contains_key(&"a"));
    assert!(!lookup.contains_key(&"z"));
    assert_eq!(lookup.len(), 3);
}

#[test]
fn linq_tests_test_to_hashmap() {
    let map = vec![("one", 1), ("two", 2), ("three", 3)].to_hashmap(|(k, _): &(&str, i32)| *k);
    assert_eq!(map[&"one"], ("one", 1));
    assert_eq!(map[&"two"], ("two", 2));
}

#[test]
fn linq_tests_test_to_hashset() {
    let set = vec![1, 2, 2, 3, 3, 3].to_hashset();
    assert_eq!(set.len(), 3);
    assert!(set.contains(&1));
    assert!(set.contains(&2));
    assert!(set.contains(&3));
}

#[test]
fn linq_tests_test_zip() {
    let result: Vec<_> = vec![1, 2, 3].zip_(vec![10, 20, 30], |a, b| a + b);
    assert_eq!(result, [11, 22, 33]);
}

#[test]
fn linq_tests_test_append_prepend() {
    let a: Vec<_> = vec![1, 2, 3].append_item(99);
    assert_eq!(a, [1, 2, 3, 99]);
    let p: Vec<_> = vec![1, 2, 3].prepend_item(0);
    assert_eq!(p, [0, 1, 2, 3]);
}

#[test]
fn linq_tests_test_is_empty() {
    assert!(Vec::<i32>::new().is_empty_());
    assert!(!vec![1].is_empty_());
}

#[test]
fn linq_tests_test_sequence_equal() {
    assert!(vec![1, 2, 3].sequence_equal(vec![1, 2, 3]));
    assert!(!vec![1, 2, 3].sequence_equal(vec![1, 2]));
    assert!(!vec![1, 2, 3].sequence_equal(vec![1, 2, 4]));
}

#[test]
fn test_default_if_empty_with_items() {
    let v: Vec<i32> = vec![1, 2, 3].default_if_empty(99);
    assert_eq!(v, [1, 2, 3]);
}

#[test]
fn test_default_if_empty_when_empty() {
    let v: Vec<i32> = Vec::<i32>::new().default_if_empty(99);
    assert_eq!(v, [99]);
}

#[test]
fn test_default_if_empty_chained() {
    let v: Vec<i32> = upto(1, 5).where_(|x| *x > 100).default_if_empty(-1);
    assert_eq!(v, [-1]);
}

#[test]
fn test_take_last() {
    let v: Vec<_> = upto(1, 5).take_last(2);
    assert_eq!(v, [4, 5]);
}

#[test]
fn test_take_last_more_than_source() {
    let v: Vec<_> = upto(1, 3).take_last(10);
    assert_eq!(v, [1, 2, 3]);
}

#[test]
fn test_take_last_zero() {
    let v: Vec<i32> = upto(1, 5).take_last(0);
    assert!(v.is_empty());
}

#[test]
fn test_take_last_empty_source() {
    let v: Vec<i32> = Vec::<i32>::new().take_last(3);
    assert!(v.is_empty());
}

#[test]
fn test_skip_last() {
    let v: Vec<_> = upto(1, 5).skip_last(2);
    assert_eq!(v, [1, 2, 3]);
}

#[test]
fn test_skip_last_more_than_source() {
    let v: Vec<i32> = upto(1, 3).skip_last(10);
    assert!(v.is_empty());
}

#[test]
fn test_skip_last_zero() {
    let v: Vec<_> = upto(1, 5).skip_last(0);
    assert_eq!(v, [1, 2, 3, 4, 5]);
}

#[test]
fn test_skip_last_equal_to_source() {
    let v: Vec<i32> = upto(1, 3).skip_last(3);
    assert!(v.is_empty());
}

#[test]
fn test_order() {
    let v: Vec<_> = vec![3, 1, 4, 1, 5, 9, 2].order().to_vec();
    assert_eq!(v, [1, 1, 2, 3, 4, 5, 9]);
}

#[test]
fn test_order_descending() {
    let v: Vec<_> = vec![3, 1, 4, 1, 5].order_descending().to_vec();
    assert_eq!(v, [5, 4, 3, 1, 1]);
}

#[test]
fn test_order_then_by() {
    let data = vec![(1, "b"), (1, "a"), (2, "z")];
    let v: Vec<_> = data
        .order()
        .then_by(|(_, name): &(i32, &str)| *name)
        .to_vec();
    assert_eq!(v, [(1, "a"), (1, "b"), (2, "z")]);
}

#[test]
fn test_order_empty() {
    let v: Vec<i32> = Vec::<i32>::new().order().to_vec();
    assert!(v.is_empty());
}

#[test]
fn test_first_strict() {
    assert_eq!(upto(1, 5).first(), 1);
}

#[test]
fn test_last_strict() {
    assert_eq!(upto(1, 5).last_(), 5);
}

#[test]
fn test_single_strict() {
    assert_eq!(vec![42].single(), 42);
}

#[test]
fn test_element_at_strict() {
    assert_eq!(vec![10, 20, 30].element_at_strict(1), 20);
}

#[test]
fn test_reduce() {
    let sum = upto(1, 5).reduce_(|acc, x| acc + x);
    assert_eq!(sum, Some(15));
}

#[test]
fn test_reduce_empty() {
    let r = Vec::<i32>::new().reduce_(|a, b| a + b);
    assert_eq!(r, None);
}

#[test]
fn test_reduce_single() {
    let r = vec![42].reduce_(|a, b| a + b);
    assert_eq!(r, Some(42));
}

#[test]
fn test_aggregate_with_selector() {
    let result: i32 = upto(1, 5).aggregate_with_selector(0i32, |acc, x| acc + x, |sum| sum * 2);
    assert_eq!(result, 30);
}

#[test]
fn test_aggregate_with_selector_type_change() {
    let len: usize = vec!["foo", "bar", "baz"].aggregate_with_selector(
        String::new(),
        |mut acc: String, s: &str| {
            acc.push_str(s);
            acc
        },
        |s: String| s.len(),
    );
    assert_eq!(len, 9);
}

#[test]
fn test_except_by() {
    let items = vec!["apple", "ant", "banana", "bear"];
    let v: Vec<_> = items.except_by(vec!['a'], first_char);
    assert_eq!(v, ["banana", "bear"]);
}

#[test]
fn test_except_by_no_exclusions() {
    let items = vec![1, 2, 3];
    let v: Vec<_> = items.except_by(Vec::<i32>::new(), |x: &i32| *x);
    assert_eq!(v, [1, 2, 3]);
}

#[test]
fn test_intersect_by() {
    let items = vec!["apple", "ant", "banana", "bear", "cherry"];
    let v: Vec<_> = items.intersect_by(vec!['a', 'c'], first_char);
    assert_eq!(v, ["apple", "ant", "cherry"]);
}

#[test]
fn test_intersect_by_no_match() {
    let items = vec![1, 2, 3];
    let v: Vec<_> = items.intersect_by(vec![10, 20], |x: &i32| *x);
    assert!(v.is_empty());
}

#[test]
fn test_union_by_cross_side_dedup() {
    let first = vec!["apple", "ant"];
    let second = vec!["avocado", "banana"];
    let v: Vec<_> = first.union_by(second, first_char);
    assert_eq!(v, ["apple", "banana"]);
}

#[test]
fn test_union_by_no_overlap() {
    let first = vec![("a", 1)];
    let second = vec![("b", 2), ("c", 3)];
    let v: Vec<_> = first.union_by(second, |(k, _): &(&str, i32)| *k);
    assert_eq!(v, [("a", 1), ("b", 2), ("c", 3)]);
}

#[test]
fn test_range_chains_with_linq_ext() {
    let v: Vec<_> = linq_rs::range(1, 10).where_(|x| x % 2 == 0).select(|x| x * x);
    assert_eq!(v, [4, 16, 36, 64, 100]);
}

#[test]
fn test_where_indexed() {
    let v: Vec<_> = vec!["a", "b", "c", "d", "e"].where_indexed(|_, i| i % 2 == 0);
    assert_eq!(v, ["a", "c", "e"]);
}

#[test]
fn test_select_indexed() {
    let v: Vec<_> = vec!["x", "y", "z"].select_indexed(|s, i| format!("{i}:{s}"));
    assert_eq!(v, ["0:x", "1:y", "2:z"]);
}

#[test]
fn test_select_many_indexed() {
    let v: Vec<_> = vec!["a", "b", "c"].select_many_indexed(|s, i| std::iter::repeat(s).take(i + 1).collect());
    assert_eq!(v, ["a", "b", "b", "c", "c", "c"]);
}

#[test]
fn test_skip_while_indexed() {
    let v: Vec<_> = (10..20).collect::<Vec<i32>>().skip_while_indexed(|_, i| i < 3);
    assert_eq!(v, [13, 14, 15, 16, 17, 18, 19]);
}

#[test]
fn test_take_while_indexed() {
    let v: Vec<_> = (10..20).collect::<Vec<i32>>().take_while_indexed(|_, i| i < 3);
    assert_eq!(v, [10, 11, 12]);
}

#[test]
fn test_first_or() {
    assert_eq!(upto(1, 5).first_or(99), 1);
    assert_eq!(Vec::<i32>::new().first_or(99), 99);
}

#[test]
fn test_last_or() {
    assert_eq!(upto(1, 5).last_or(99), 5);
    assert_eq!(Vec::<i32>::new().last_or(99), 99);
}

#[test]
fn test_single_or_empty() {
    assert_eq!(Vec::<i32>::new().single_or(99), 99);
}

#[test]
fn test_single_or_one_element() {
    assert_eq!(vec![42].single_or(99), 42);
}

#[test]
fn test_element_at_or() {
    assert_eq!(vec![10, 20, 30].element_at_or(1, 99), 20);
    assert_eq!(vec![10, 20].element_at_or(5, 99), 99);
}

#[test]
fn test_index_() {
    let v: Vec<_> = vec!["a", "b", "c"].index_();
    assert_eq!(v, [(0, "a"), (1, "b"), (2, "c")]);
}

#[test]
fn test_group_by_with_element() {
    let words = vec!["apple", "ant", "banana", "bear"];
    let mut groups = words.group_by_with_element(first_char, |w: &str| w.len());
    groups.sort_by_key(|g| *g.key());
    assert_eq!(*groups[0].key(), 'a');
    assert_eq!(groups[0].elements(), [5, 3]);
    assert_eq!(*groups[1].key(), 'b');
    assert_eq!(groups[1].elements(), [6, 4]);
}

#[test]
fn test_group_by_with_result() {
    let words = vec!["apple", "ant", "banana", "bear", "cherry"];
    let mut results = words.group_by_with_result(first_char, |k: char, members: Vec<&str>| (k, members.len()));
    results.sort_by_key(|(k, _)| *k);
    assert_eq!(results, [('a', 2), ('b', 2), ('c', 1)]);
}

#[test]
fn test_zip3_basic() {
    let v: Vec<_> = vec![1, 2, 3].zip3(vec![10, 20, 30], vec![100, 200, 300], |a, b, c| a + b + c);
    assert_eq!(v, [111, 222, 333]);
}

#[test]
fn test_zip3_shortest_wins() {
    let v: Vec<_> = vec![1, 2, 3, 4].zip3(vec![10, 20], vec![100, 200, 300], |a, b, c| (a, b, c));
    assert_eq!(v, [(1, 10, 100), (2, 20, 200)]);
}

#[test]
fn test_count_by() {
    let words = vec!["apple", "ant", "banana", "bear", "cherry"];
    let mut counts = words.count_by_partial_eq(first_char);
    counts.sort_by_key(|(k, _)| *k);
    assert_eq!(counts, [('a', 2), ('b', 2), ('c', 1)]);
}

#[test]
fn test_count_by_empty() {
    let v = Vec::<i32>::new().count_by_partial_eq(|x: &i32| *x);
    assert!(v.is_empty());
}

#[test]
fn test_aggregate_by_sum_per_group() {
    let data = vec![("a", 1), ("b", 2), ("a", 3), ("b", 10), ("a", 100)];
    let mut totals = data.aggregate_by_partial_eq(
        |(k, _): &(&str, i32)| *k,
        |_: &&str| 0i32,
        |acc: i32, (_, v): (&str, i32)| acc + v,
    );
    totals.sort_by_key(|(k, _)| *k);
    assert_eq!(totals, [("a", 104), ("b", 12)]);
}

#[test]
fn test_aggregate_by_per_key_seed() {
    let data = vec![("x", 1), ("y", 1), ("x", 1)];
    let mut totals = data.aggregate_by_partial_eq(
        |(k, _): &(&str, i32)| *k,
        |k: &&str| if *k == "x" { 100 } else { 0 },
        |acc: i32, (_, v): (&str, i32)| acc + v,
    );
    totals.sort_by_key(|(k, _)| *k);
    assert_eq!(totals, [("x", 102), ("y", 1)]);
}

#[test]
fn test_distinct_hashed_matches_distinct() {
    let input = vec![3, 1, 2, 1, 3, 4];
    let slow: Vec<_> = input.clone().distinct_partial_eq();
    let fast: Vec<_> = input.distinct();
    assert_eq!(slow, fast);
}

#[test]
fn test_distinct_by_hashed_matches_distinct_by() {
    let input = vec!["apple", "ant", "banana", "bear"];
    let slow: Vec<_> = input.clone().distinct_by_partial_eq(first_char);
    let fast: Vec<_> = input.distinct_by(first_char);
    assert_eq!(slow, fast);
}

#[test]
fn test_select_propagates_exact_size() {
    let it = Select::new(vec![1, 2, 3, 4, 5], |x: i32| x * 2);
    assert_eq!(it.size_hint().0, 5);
}

#[test]
fn test_skip_propagates_size() {
    let it = Skip::new(vec![1, 2, 3, 4, 5, 6, 7, 8, 9, 10], 3);
    assert_eq!(it.size_hint(), (7, Some(7)));
}

#[test]
fn test_take_propagates_size() {
    let it = Take::new(vec![1; 100], 5);
    assert_eq!(it.size_hint(), (5, Some(5)));
}

#[test]
fn test_take_clamps_to_inner() {
    let it = Take::new(vec![1, 2, 3], 99);
    assert_eq!(it.size_hint(), (3, Some(3)));
}

#[test]
fn test_select_double_ended() {
    let mut it = Select::new(vec![1, 2, 3, 4, 5], |x: i32| x * 10);
    assert_eq!(it.next_back(), Some(50));
    assert_eq!(it.next(), Some(10));
    assert_eq!(it.next_back(), Some(40));
}

#[test]
fn test_reverse_is_exact_size() {
    let it = Reverse::new(vec![1, 2, 3, 4, 5]);
    assert_eq!(it.size_hint().0, 5);
}

#[test]
fn test_zip_size_hint_takes_min() {
    let short = vec![1, 2, 3];
    let long = vec![1; 100];
    let it = Zip::new(short, long, |a: i32, b: i32| a + b);
    assert_eq!(it.size_hint(), (3, Some(3)));
}

#[test]
fn linq_tests_test_realistic_pipeline() {
    #[derive(Clone, Debug)]
    struct Employee {
        name: &'static str,
        dept: &'static str,
        salary: u32,
    }

    let employees = vec![
        Employee { name: "Alice", dept: "Eng", salary: 120_000 },
        Employee { name: "Bob", dept: "Eng", salary: 95_000 },
        Employee { name: "Carol", dept: "Sales", salary: 80_000 },
        Employee { name: "Dave", dept: "Sales", salary: 75_000 },
        Employee { name: "Eve", dept: "Eng", salary: 130_000 },
        Employee { name: "Frank", dept: "HR", salary: 70_000 },
    ];

    // Top earners per department (salary > 85k), sorted by dept then salary desc.
    let result: Vec<(&str, &str, u32)> = employees
        .where_(|e| e.salary > 85_000)
        .select(|e| (e.dept, e.name, e.salary))
        .order_by(|(dept, _, _): &(&str, &str, u32)| *dept)
        .then_by_descending(|(_, _, sal): &(&str, &str, u32)| *sal)
        .to_vec();

    assert_eq!(result.len(), 3);
    assert_eq!(result[0], ("Eng", "Eve", 130_000));
    assert_eq!(result[1], ("Eng", "Alice", 120_000));
    assert_eq!(result[2], ("Eng", "Bob", 95_000));
}

#[test]
fn linq_tests_test_sum() {
    let s: i32 = upto(1, 100).sum_();
    assert_eq!(s, 5050);
}
