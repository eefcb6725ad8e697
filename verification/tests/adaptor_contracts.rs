use linq_rs::LinqExt;

#[test]
fn rpitit_returns_cannot_be_fused() {
    let n = vec![1, 1, 2].distinct().len();
    assert_eq!(n, 2);
}

#[test]
fn select_many_accepts_any_into_iterator() {
    #[derive(Clone)]
    struct Person {
        orders: Vec<&'static str>,
    }
    let people = vec![Person { orders: vec!["a", "b"] }, Person { orders: vec!["c"] }];
    let all: Vec<&str> = people.select_many(|p| p.orders);
    assert_eq!(all, ["a", "b", "c"]);

    let nested: Vec<i32> = vec![1, 2].select_many(|x| [x, x * 10].to_vec());
    assert_eq!(nested, [1, 10, 2, 20]);
}

#[derive(Debug, PartialEq)]
struct Person {
    dept: String,
    age: u32,
}

fn staff() -> Vec<Person> {
    vec![
        Person { dept: "ops".into(), age: 40 },
        Person { dept: "eng".into(), age: 30 },
        Person { dept: "eng".into(), age: 25 },
    ]
}

#[test]
fn ordering_works_over_a_borrowed_collection() {
    let people = staff();
    let view = || people.iter().collect::<Vec<&Person>>();

    let by_age: Vec<&Person> = view().order_by(|p: &&Person| p.age).to_vec();
    assert_eq!(by_age[0].age, 25);

    // A borrowed key, not just a borrowed item.
    let by_dept: Vec<&Person> = view().order_by(|p: &&Person| &p.dept).to_vec();
    assert_eq!(by_dept[0].dept, "eng");

    let multi: Vec<&Person> = view()
        .order_by(|p: &&Person| &p.dept)
        .then_by_descending(|p: &&Person| p.age)
        .to_vec();
    assert_eq!((multi[0].dept.as_str(), multi[0].age), ("eng", 30));

    let ages: Vec<u32> = view().select(|p| p.age).order().to_vec();
    assert_eq!(ages, [25, 30, 40]);
    let desc: Vec<u32> = view().select(|p| p.age).order_descending().to_vec();
    assert_eq!(desc, [40, 30, 25]);

    assert_eq!(people.len(), 3);
}

#[test]
fn ordering_accepts_a_non_static_comparator() {
    let people = staff();
    let pivot = String::from("eng");
    let v: Vec<&Person> = people
        .iter()
        .collect::<Vec<&Person>>()
        .order_by_with(|a: &&Person, b: &&Person| (a.dept == pivot).cmp(&(b.dept == pivot)).reverse())
        .to_vec();
    assert_eq!(v[0].dept, "eng");
}
