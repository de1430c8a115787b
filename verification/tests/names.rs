use std::cmp::Ordering;
use tp_updater::names::{compare_names, sorted_names, NameOrder};

fn expected(a: &str, b: &str) -> NameOrder {
    match a.cmp(b) {
        Ordering::Less => NameOrder::Before,
        Ordering::Equal => NameOrder::Same,
        Ordering::Greater => NameOrder::After,
    }
}

fn strings(names: &[&str]) -> Vec<String> {
    names.iter().map(|n| n.to_string()).collect()
}

#[test]
fn compare_names_orders_by_bytes() {
    assert_eq!(compare_names("Air Quality", "Congestion"), NameOrder::Before);
    assert_eq!(compare_names("Congestion", "Air Quality"), NameOrder::After);
    assert_eq!(compare_names("Income", "Income"), NameOrder::Same);
    assert_eq!(compare_names("", ""), NameOrder::Same);
    assert_eq!(compare_names("", "a"), NameOrder::Before);
    assert_eq!(compare_names("a", ""), NameOrder::After);
}

#[test]
fn compare_names_puts_a_prefix_first() {
    assert_eq!(compare_names("Housing", "Housing Permits"), NameOrder::Before);
    assert_eq!(compare_names("Housing Permits", "Housing"), NameOrder::After);
    assert_eq!(compare_names("Housing Activity", "Housing Affordability"), NameOrder::Before);
}

#[test]
fn compare_names_tells_case_and_spacing_apart() {
    assert_eq!(compare_names("income", "Income"), NameOrder::After);
    assert_eq!(compare_names("Population  Growth", "Population Growth"), NameOrder::Before);
    assert_eq!(compare_names("Innovataion", "Innovation"), NameOrder::Before);
}

#[test]
fn compare_names_agrees_with_string_order() {
    let samples = [
        "", "a", "A", "ab", "b", "Air Quality", "Water Quality", "Zebra", "zebra", "\u{e9}t\u{e9}",
        "z", "\u{10348}", "\u{20ac}", "~", " ", "Transit Conditions", "Transit Ridership",
    ];
    for a in samples {
        for b in samples {
            assert_eq!(compare_names(a, b), expected(a, b), "{a:?} against {b:?}");
        }
    }
}

#[test]
fn sorted_names_sorts_and_drops_repeats() {
    let sorted = sorted_names(strings(&["Income", "Air Quality", "Water Quality", "Air Quality", "Congestion"]));
    assert_eq!(sorted, strings(&["Air Quality", "Congestion", "Income", "Water Quality"]));
}

#[test]
fn sorted_names_keeps_a_sorted_list() {
    let list = strings(&["Air Quality", "Congestion"]);
    assert_eq!(sorted_names(list.clone()), list);
    assert_eq!(sorted_names(Vec::new()), Vec::<String>::new());
    assert_eq!(sorted_names(strings(&["x", "x", "x"])), strings(&["x"]));
}

#[test]
fn sorted_names_agrees_with_sort_and_dedup() {
    let list = strings(&["b", "", "\u{e9}", "a", "B", "ab", "a", "z", "\u{20ac}", "b"]);
    let mut expected = list.clone();
    expected.sort();
    expected.dedup();
    assert_eq!(sorted_names(list), expected);
}
