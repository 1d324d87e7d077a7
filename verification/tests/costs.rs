use std::collections::BTreeMap;
use ww_parser::character::Consume;
use ww_parser::costs::{add_or_update_map, aggregate, entries_of, merge_costs};
use ww_parser::json::ParseError;

fn entry(key: i64, value: i64) -> Consume {
    Consume { key, value }
}

fn map_of(pairs: &[(i64, i64)]) -> BTreeMap<i64, i64> {
    pairs.iter().cloned().collect()
}

#[test]
fn aggregate_sums_equal_resources() {
    let got = aggregate(&vec![entry(10, 3), entry(20, 1), entry(10, 5)]);
    assert_eq!(got, Ok(map_of(&[(10, 8), (20, 1)])));
}

#[test]
fn aggregate_of_nothing_is_empty() {
    assert_eq!(aggregate(&Vec::new()), Ok(BTreeMap::new()));
}

#[test]
fn aggregate_keeps_zero_quantities() {
    assert_eq!(aggregate(&vec![entry(1, 0)]), Ok(map_of(&[(1, 0)])));
}

#[test]
fn aggregate_is_the_same_for_every_order() {
    let a = vec![entry(1, 2), entry(2, 3), entry(1, 4), entry(3, 0)];
    let b = vec![entry(3, 0), entry(1, 4), entry(2, 3), entry(1, 2)];
    let c = vec![entry(2, 3), entry(1, 2), entry(3, 0), entry(1, 4)];
    let want = Ok(map_of(&[(1, 6), (2, 3), (3, 0)]));
    assert_eq!(aggregate(&a), want);
    assert_eq!(aggregate(&b), want);
    assert_eq!(aggregate(&c), want);
}

#[test]
fn aggregate_refuses_negative_quantity() {
    assert_eq!(aggregate(&vec![entry(1, 2), entry(2, -1)]), Err(ParseError::NegativeQuantity));
}

#[test]
fn aggregate_refuses_overflow() {
    assert_eq!(aggregate(&vec![entry(1, i64::MAX), entry(1, 1)]), Err(ParseError::QuantityOverflow));
    assert_eq!(aggregate(&vec![entry(1, i64::MAX), entry(2, 1)]), Ok(map_of(&[(1, i64::MAX), (2, 1)])));
}

#[test]
fn aggregate_names_the_negative_quantity_first_in_every_order() {
    let a = vec![entry(1, i64::MAX), entry(1, 1), entry(2, -1)];
    let b = vec![entry(2, -1), entry(1, 1), entry(1, i64::MAX)];
    assert_eq!(aggregate(&a), Err(ParseError::NegativeQuantity));
    assert_eq!(aggregate(&b), Err(ParseError::NegativeQuantity));
}

#[test]
fn add_or_update_adds_or_inserts() {
    let mut m = map_of(&[(1, 2)]);
    add_or_update_map(&mut m, &1, &3);
    add_or_update_map(&mut m, &2, &7);
    assert_eq!(m, map_of(&[(1, 5), (2, 7)]));
}

#[test]
fn merge_adds_maps_together() {
    let got = merge_costs(map_of(&[(1, 2), (2, 3)]), &map_of(&[(2, 4), (3, 5)]));
    assert_eq!(got, Ok(map_of(&[(1, 2), (2, 7), (3, 5)])));
}

#[test]
fn merge_with_nothing_changes_nothing() {
    assert_eq!(merge_costs(map_of(&[(1, 2)]), &BTreeMap::new()), Ok(map_of(&[(1, 2)])));
    assert_eq!(merge_costs(BTreeMap::new(), &map_of(&[(1, 2)])), Ok(map_of(&[(1, 2)])));
}

#[test]
fn merge_refuses_overflow() {
    let got = merge_costs(map_of(&[(1, i64::MAX)]), &map_of(&[(1, 1)]));
    assert_eq!(got, Err(ParseError::QuantityOverflow));
}

#[test]
fn merge_of_aggregates_is_aggregate_of_all() {
    let a = vec![entry(1, 2), entry(2, 3)];
    let b = vec![entry(2, 4), entry(1, 1), entry(5, 5)];
    let mut all = a.clone();
    all.extend(b.iter().cloned());
    let merged = merge_costs(aggregate(&a).unwrap(), &aggregate(&b).unwrap());
    assert_eq!(merged, aggregate(&all));
}

#[test]
fn entries_come_in_ascending_order() {
    let m = map_of(&[(30, 1), (-5, 2), (7, 3)]);
    assert_eq!(entries_of(&m), vec![entry(-5, 2), entry(7, 3), entry(30, 1)]);
    assert_eq!(entries_of(&BTreeMap::new()), Vec::<Consume>::new());
}
