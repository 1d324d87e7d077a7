use ww_parser::parsed_character::{ParsedCharacter, ParsedStats, ParsedTag};
use ww_parser::read_and_write_funcs::{
    compare_characters, report_key, storage_key, sync, SyncOutcome, SyncPlan,
};
use ww_parser::str_map::{Content, StrMap};

fn record(name: &str, life: i64, tags: &[&str], costs: &[(&str, i64)]) -> ParsedCharacter {
    let mut tier: StrMap<i64> = StrMap::new();
    for (k, v) in costs {
        tier.insert(k.to_string(), *v);
    }
    let mut ascensions: StrMap<StrMap<i64>> = StrMap::new();
    ascensions.insert("1".to_string(), tier);
    ParsedCharacter {
        id: 1,
        name: name.to_string(),
        rarity: 5,
        weapon: 1,
        element: 2,
        tags: tags.iter().map(|t| ParsedTag { name: t.to_string(), desc: String::new() }).collect(),
        stats: ParsedStats { life, atk: 2, def: 3 },
        skills: StrMap::new(),
        chains: StrMap::new(),
        ascensions,
    }
}

#[test]
fn keys_of_record_and_report() {
    assert_eq!(storage_key("Yangyang"), "Yangyang.json");
    assert_eq!(storage_key(""), ".json");
    assert_eq!(report_key("Yangyang.json"), "Changes to Yangyang.json");
    assert_eq!(report_key(&storage_key("Jué")), "Changes to Jué.json");
}

#[test]
fn first_sync_writes_without_report() {
    let current = record("A", 1, &["x"], &[("Ore", 1)]);
    let plan = sync("A.json", None, &current);
    assert_eq!(
        plan,
        SyncPlan { outcome: SyncOutcome::Written, record_key: "A.json".to_string(), report_key: None }
    );
}

#[test]
fn sync_of_a_changed_record_writes_with_report() {
    let previous = record("A", 1, &["x"], &[("Ore", 1)]);
    let current = record("A", 2, &["x"], &[("Ore", 1)]);
    let plan = sync("A.json", Some(&previous), &current);
    assert_eq!(
        plan,
        SyncPlan {
            outcome: SyncOutcome::Written,
            record_key: "A.json".to_string(),
            report_key: Some("Changes to A.json".to_string()),
        }
    );
}

#[test]
fn second_sync_of_the_same_record_changes_nothing() {
    let current = record("A", 1, &["x", "y"], &[("Ore", 1), ("Shell", 2)]);
    let first = sync("A.json", None, &current);
    assert_eq!(first.outcome, SyncOutcome::Written);
    let stored = record("A", 1, &["x", "y"], &[("Shell", 2), ("Ore", 1)]);
    let second = sync("A.json", Some(&stored), &current);
    assert_eq!(
        second,
        SyncPlan { outcome: SyncOutcome::Unchanged, record_key: "A.json".to_string(), report_key: None }
    );
}

#[test]
fn records_differ_by_the_order_of_their_tags() {
    let a = record("A", 1, &["x", "y"], &[]);
    let b = record("A", 1, &["y", "x"], &[]);
    assert!(compare_characters(&a, &b));
    assert_eq!(sync("A.json", Some(&a), &b).outcome, SyncOutcome::Written);
}

#[test]
fn records_do_not_differ_by_the_order_in_which_a_mapping_was_filled() {
    let a = record("A", 1, &[], &[("b", 2), ("a", 1), ("c", 3)]);
    let b = record("A", 1, &[], &[("c", 3), ("a", 1), ("b", 2)]);
    assert!(!compare_characters(&a, &b));
    assert!(a.same(&b));
}

#[test]
fn records_differ_by_any_field() {
    let base = record("A", 1, &["x"], &[("Ore", 1)]);
    assert!(!compare_characters(&base, &record("A", 1, &["x"], &[("Ore", 1)])));
    assert!(compare_characters(&base, &record("B", 1, &["x"], &[("Ore", 1)])));
    assert!(compare_characters(&base, &record("A", 2, &["x"], &[("Ore", 1)])));
    assert!(compare_characters(&base, &record("A", 1, &["z"], &[("Ore", 1)])));
    assert!(compare_characters(&base, &record("A", 1, &["x"], &[("Ore", 2)])));
    assert!(compare_characters(&base, &record("A", 1, &["x"], &[("Gem", 1)])));
    assert!(compare_characters(&base, &record("A", 1, &["x"], &[])));
    assert!(compare_characters(&base, &record("A", 1, &[], &[("Ore", 1)])));
}
