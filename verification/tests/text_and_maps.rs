use ww_parser::str_map::{Content, StrMap};
use ww_parser::text::{chars_of, precedes, same_text, to_decimal};

#[test]
fn decimal_numerals() {
    assert_eq!(to_decimal(0), "0");
    assert_eq!(to_decimal(7), "7");
    assert_eq!(to_decimal(42), "42");
    assert_eq!(to_decimal(-1), "-1");
    assert_eq!(to_decimal(1000), "1000");
    assert_eq!(to_decimal(i64::MAX), "9223372036854775807");
    assert_eq!(to_decimal(i64::MIN), "-9223372036854775808");
}

#[test]
fn decimal_numerals_are_those_of_std() {
    for v in [0i64, 1, -1, 9, 10, 11, 99, 100, 101, -100, 123456789, -987654321, i64::MAX, i64::MIN] {
        assert_eq!(to_decimal(v), v.to_string());
    }
}

#[test]
fn characters_of_a_string() {
    assert_eq!(chars_of("aé火"), vec!['a', 'é', '火']);
    assert_eq!(chars_of(""), Vec::<char>::new());
}

#[test]
fn order_of_strings_is_that_of_std() {
    let words = ["", "1", "10", "2", "a", "A", "ab", "b", "é", "火", "z", "zz"];
    for a in words {
        for b in words {
            assert_eq!(precedes(a, b), a < b, "{:?} and {:?}", a, b);
            assert_eq!(same_text(a, b), a == b, "{:?} and {:?}", a, b);
        }
    }
}

#[test]
fn map_keeps_keys_in_ascending_order() {
    let mut m: StrMap<i64> = StrMap::new();
    for (k, v) in [("2", 2), ("10", 10), ("1", 1), ("b", 4), ("a", 3)] {
        m.insert(k.to_string(), v);
    }
    assert_eq!(m.len(), 5);
    let keys: Vec<&str> = (0..m.len()).map(|i| m.key_at(i).as_str()).collect();
    assert_eq!(keys, vec!["1", "10", "2", "a", "b"]);
    let values: Vec<i64> = (0..m.len()).map(|i| *m.value_at(i)).collect();
    assert_eq!(values, vec![1, 10, 2, 3, 4]);
}

#[test]
fn map_replaces_the_value_of_a_key() {
    let mut m: StrMap<i64> = StrMap::new();
    m.insert("a".to_string(), 1);
    m.insert("b".to_string(), 2);
    m.insert("a".to_string(), 3);
    assert_eq!(m.len(), 2);
    assert_eq!(m.get("a"), Some(&3));
    assert_eq!(m.get("b"), Some(&2));
    assert_eq!(m.get("c"), None);
    assert_eq!(m.get(""), None);
}

#[test]
fn map_position_of_a_key() {
    let mut m: StrMap<i64> = StrMap::new();
    m.insert("b".to_string(), 1);
    m.insert("d".to_string(), 2);
    assert_eq!(m.position("a"), 0);
    assert_eq!(m.position("b"), 0);
    assert_eq!(m.position("c"), 1);
    assert_eq!(m.position("d"), 1);
    assert_eq!(m.position("e"), 2);
}

#[test]
fn map_push_last_appends() {
    let mut m: StrMap<i64> = StrMap::new();
    m.push_last("a".to_string(), 1);
    m.push_last("b".to_string(), 2);
    assert_eq!(m.len(), 2);
    assert_eq!(m.key_at(1), "b");
    assert_eq!(*m.value_at(1), 2);
}

#[test]
fn maps_are_the_same_whatever_the_order_of_insertion() {
    let mut a: StrMap<i64> = StrMap::new();
    a.insert("x".to_string(), 1);
    a.insert("y".to_string(), 2);
    let mut b: StrMap<i64> = StrMap::new();
    b.insert("y".to_string(), 2);
    b.insert("x".to_string(), 1);
    assert!(a.same(&b));
    assert_eq!(a, b);
    b.insert("x".to_string(), 5);
    assert!(!a.same(&b));
    let mut c: StrMap<i64> = StrMap::new();
    c.insert("x".to_string(), 1);
    assert!(!a.same(&c));
}
