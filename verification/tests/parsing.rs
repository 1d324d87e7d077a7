use std::collections::BTreeMap;
use ww_parser::character::{ChainDescription, Character, Consume};
use ww_parser::json::{Json, ParseError};
use ww_parser::parsed_character::{
    Damage, Level, ParsedChainDescription, ParsedCharacter, ParsedStats, ParsedTag, SkillLarge,
    SkillSmall, SkillTree, SkillVariant,
};
use ww_parser::parsing_funcs::{
    consume_costs, format_rate, is_simple_skill, match_item_names, match_value, name_entries,
    parse_ascensions, parse_chains, parse_character, parse_character_skilltrees,
    parse_character_tag, parse_consume_map, parse_damage, parse_format, parse_level,
    parse_level_format, parse_skill, render_skill_description, resolve, LEVELLED_FIELDS,
};
use ww_parser::str_map::StrMap;

fn s(text: &str) -> Json {
    Json::Str(text.to_string())
}

fn n(i: i64) -> Json {
    Json::Int(i)
}

fn arr(items: Vec<Json>) -> Json {
    Json::Array(items)
}

fn fields(pairs: Vec<(&str, Json)>) -> StrMap<Json> {
    let mut m = StrMap::new();
    for (k, v) in pairs {
        m.insert(k.to_string(), v);
    }
    m
}

fn obj(pairs: Vec<(&str, Json)>) -> Json {
    Json::Object(fields(pairs))
}

fn named(pairs: &[(&str, i64)]) -> StrMap<i64> {
    let mut m = StrMap::new();
    for (k, v) in pairs {
        m.insert(k.to_string(), *v);
    }
    m
}

fn cost(key: i64, value: i64) -> Json {
    obj(vec![("Key", n(key)), ("Value", n(value))])
}

fn catalog() -> Option<Json> {
    Some(obj(vec![
        ("42", obj(vec![("name", s("Crystal")), ("rank", n(3))])),
        ("7", obj(vec![("name", s("Shell"))])),
        ("8", obj(vec![("name", s("Shell"))])),
    ]))
}

fn ten(first: &str, last: &str) -> Json {
    let mut row = vec![s(first)];
    for _ in 0..8 {
        row.push(s("x"));
    }
    row.push(s(last));
    arr(row)
}

fn ten_rates(first: i64, last: i64) -> Json {
    let mut row = vec![n(first)];
    for _ in 0..8 {
        row.push(n(0));
    }
    row.push(n(last));
    arr(row)
}

fn raw_damage(first: i64, last: i64) -> Json {
    obj(vec![
        ("Element", n(1)),
        ("ElementPower", n(2)),
        ("Energy", n(3)),
        ("HardnessLv", n(4)),
        ("RateLv", ten_rates(first, last)),
        ("RelatedProperty", s("ATK")),
        ("ToughLv", n(5)),
        ("Type", n(6)),
    ])
}

fn raw_level(format: Json, name: &str, row: Json) -> Json {
    obj(vec![("Format", format), ("Name", s(name)), ("Param", arr(vec![row]))])
}

fn simple_skill() -> StrMap<Json> {
    fields(vec![
        ("Name", s("Swift")),
        ("Desc", s("Gain {0}.\nAttack\nup")),
        ("Param", arr(vec![s("12%")])),
    ])
}

fn levelled_skill() -> StrMap<Json> {
    fields(vec![
        ("Name", s("Slash")),
        ("Desc", s("<size=10>Deals {0}</size>")),
        ("Param", arr(vec![s("fire")])),
        ("Type", s("Basic")),
        ("Level", obj(vec![("1", raw_level(Json::Null, "Rate", ten("10%", "30%")))])),
        (
            "Consume",
            obj(vec![
                ("1", arr(vec![cost(42, 1), cost(7, 2)])),
                ("2", arr(vec![cost(42, 3), cost(42, 4)])),
            ]),
        ),
        ("Damage", obj(vec![("100", raw_damage(150, 200))])),
    ])
}

fn node(own: Vec<Json>, skill: StrMap<Json>) -> Json {
    obj(vec![
        ("Consume", arr(own)),
        ("Coordinate", n(3)),
        ("NodeType", n(2)),
        ("ParentNodes", arr(vec![n(1), n(5)])),
        ("UnLockCondition", n(9)),
        ("Skill", Json::Object(skill)),
    ])
}

#[test]
fn resolve_without_catalog_gives_the_numeral() {
    assert_eq!(resolve(&None, 42), Ok("42".to_string()));
    assert_eq!(resolve(&None, -3), Ok("-3".to_string()));
}

#[test]
fn resolve_with_catalog_gives_the_name() {
    let cat = Some(obj(vec![("42", obj(vec![("name", s("Crystal"))]))]));
    assert_eq!(resolve(&cat, 42), Ok("Crystal".to_string()));
}

#[test]
fn resolve_with_catalog_lacking_the_resource_gives_the_numeral() {
    let cat = Some(obj(vec![("1", obj(vec![("name", s("Ore"))]))]));
    assert_eq!(resolve(&cat, 42), Ok("42".to_string()));
}

#[test]
fn resolve_with_catalog_of_another_kind_gives_the_numeral() {
    assert_eq!(resolve(&Some(arr(vec![s("a")])), 0), Ok("0".to_string()));
    assert_eq!(resolve(&Some(Json::Null), 5), Ok("5".to_string()));
    assert_eq!(match_value(&n(3), &3), Ok("3".to_string()));
}

#[test]
fn resolve_refuses_a_catalog_entry_without_name() {
    let cat = obj(vec![
        ("1", obj(vec![("title", s("Ore"))])),
        ("2", obj(vec![("name", n(5))])),
        ("3", s("Ore")),
    ]);
    assert_eq!(match_value(&cat, &1), Err(ParseError::MissingField));
    assert_eq!(match_value(&cat, &2), Err(ParseError::WrongType));
    assert_eq!(match_value(&cat, &3), Err(ParseError::WrongType));
    assert_eq!(match_value(&cat, &4), Ok("4".to_string()));
}

#[test]
fn names_of_a_list_keep_the_later_of_equal_names() {
    let list = vec![
        Consume { key: 7, value: 1 },
        Consume { key: 42, value: 2 },
        Consume { key: 8, value: 3 },
        Consume { key: 9, value: 4 },
    ];
    assert_eq!(name_entries(&catalog(), &list), Ok(named(&[("9", 4), ("Crystal", 2), ("Shell", 3)])));
    assert_eq!(
        name_entries(&None, &list),
        Ok(named(&[("42", 2), ("7", 1), ("8", 3), ("9", 4)]))
    );
}

#[test]
fn names_of_a_cost_map_go_by_ascending_resource() {
    let costs: BTreeMap<i64, i64> = [(8, 30), (7, 10), (42, 5)].into_iter().collect();
    assert_eq!(match_item_names(&catalog(), &costs), Ok(named(&[("Crystal", 5), ("Shell", 30)])));
    assert_eq!(match_item_names(&None, &costs), Ok(named(&[("42", 5), ("7", 10), ("8", 30)])));
}

#[test]
fn ascension_tier_keeps_the_later_of_equal_resources() {
    let mut tiers: StrMap<Vec<Consume>> = StrMap::new();
    tiers.insert("1".to_string(), vec![Consume { key: 10, value: 3 }, Consume { key: 10, value: 5 }]);
    let cat = Some(obj(vec![("1", obj(vec![("name", s("Ore"))]))]));
    let mut want: StrMap<StrMap<i64>> = StrMap::new();
    want.insert("1".to_string(), named(&[("10", 5)]));
    assert_eq!(parse_ascensions(&cat, &tiers), Ok(want));
}

#[test]
fn ascension_tiers_are_resolved_tier_by_tier() {
    let mut tiers: StrMap<Vec<Consume>> = StrMap::new();
    tiers.insert("2".to_string(), vec![Consume { key: 42, value: 4 }, Consume { key: 1, value: 2 }]);
    tiers.insert("1".to_string(), vec![]);
    let mut want: StrMap<StrMap<i64>> = StrMap::new();
    want.insert("1".to_string(), named(&[]));
    want.insert("2".to_string(), named(&[("1", 2), ("Crystal", 4)]));
    assert_eq!(parse_ascensions(&catalog(), &tiers), Ok(want));
}

#[test]
fn ascension_tiers_fail_with_the_catalog() {
    let mut tiers: StrMap<Vec<Consume>> = StrMap::new();
    tiers.insert("1".to_string(), vec![Consume { key: 5, value: 4 }]);
    let cat = Some(obj(vec![("5", obj(vec![]))]));
    assert_eq!(parse_ascensions(&cat, &tiers), Err(ParseError::MissingField));
}

#[test]
fn chains_are_rendered_and_lose_their_parameters() {
    let mut chains: StrMap<ChainDescription> = StrMap::new();
    chains.insert(
        "2".to_string(),
        ChainDescription {
            name: "Second".to_string(),
            desc: "<color=Red>Heals</color> {1}\n{0}".to_string(),
            param: vec!["a".to_string(), "b".to_string()],
        },
    );
    chains.insert(
        "1".to_string(),
        ChainDescription { name: "First".to_string(), desc: "{0}{0}".to_string(), param: vec![] },
    );
    let mut want: StrMap<ParsedChainDescription> = StrMap::new();
    want.insert(
        "1".to_string(),
        ParsedChainDescription { name: "First".to_string(), desc: "00".to_string() },
    );
    want.insert(
        "2".to_string(),
        ParsedChainDescription { name: "Second".to_string(), desc: "Heals b: a".to_string() },
    );
    assert_eq!(parse_chains(&chains), want);
}

#[test]
fn tags_come_in_ascending_order_of_their_keys() {
    let tags = obj(vec![
        ("20", obj(vec![("Name", s("Late")), ("Desc", s("second"))])),
        ("100", obj(vec![("Desc", s("first")), ("Name", s("Early")), ("Icon", n(1))])),
    ]);
    assert_eq!(
        parse_character_tag(&tags),
        Ok(vec![
            ParsedTag { name: "Early".to_string(), desc: "first".to_string() },
            ParsedTag { name: "Late".to_string(), desc: "second".to_string() },
        ])
    );
    assert_eq!(parse_character_tag(&obj(vec![])), Ok(vec![]));
}

#[test]
fn tags_of_the_wrong_shape_are_refused() {
    assert_eq!(parse_character_tag(&arr(vec![])), Err(ParseError::WrongType));
    assert_eq!(parse_character_tag(&obj(vec![("1", s("x"))])), Err(ParseError::WrongType));
    assert_eq!(
        parse_character_tag(&obj(vec![("1", obj(vec![("Name", s("x"))]))])),
        Err(ParseError::MissingField)
    );
    assert_eq!(
        parse_character_tag(&obj(vec![("1", obj(vec![("Name", n(1)), ("Desc", s("d"))]))])),
        Err(ParseError::WrongType)
    );
}

#[test]
fn raw_cost_list_is_added_up() {
    let list = vec![cost(10, 3), cost(20, 1), cost(10, 5)];
    let want: BTreeMap<i64, i64> = [(10, 8), (20, 1)].into_iter().collect();
    assert_eq!(consume_costs(&list), Ok(want));
    assert_eq!(consume_costs(&vec![]), Ok(BTreeMap::new()));
}

#[test]
fn raw_cost_list_of_the_wrong_shape_is_refused() {
    assert_eq!(consume_costs(&vec![n(1)]), Err(ParseError::WrongType));
    assert_eq!(consume_costs(&vec![obj(vec![("Key", n(1))])]), Err(ParseError::MissingField));
    assert_eq!(
        consume_costs(&vec![obj(vec![("Key", n(1)), ("Value", s("2"))])]),
        Err(ParseError::WrongType)
    );
    assert_eq!(
        consume_costs(&vec![obj(vec![("Key", Json::Real), ("Value", n(2))])]),
        Err(ParseError::WrongType)
    );
    assert_eq!(consume_costs(&vec![cost(1, -1)]), Err(ParseError::NegativeQuantity));
    assert_eq!(
        consume_costs(&vec![cost(1, i64::MAX), cost(1, 1)]),
        Err(ParseError::QuantityOverflow)
    );
}

#[test]
fn format_is_kept_or_defaults_to_the_first_placeholder() {
    assert_eq!(parse_format(Some("{0} per hit")), "{0} per hit");
    assert_eq!(parse_format(Some("")), "");
    assert_eq!(parse_format(None), "{0}");
}

#[test]
fn level_format_takes_the_ends_of_the_row() {
    let row = vec![s("10%"), s("a"), s("a"), s("a"), s("a"), s("a"), s("a"), s("a"), s("a"), s("30%")];
    assert_eq!(parse_level_format("{0} dmg", &row), Ok("[10%|30%] dmg".to_string()));
    let same = vec![s("10%"), s("a"), s("a"), s("a"), s("a"), s("a"), s("a"), s("a"), s("a"), s("10%")];
    assert_eq!(parse_level_format("{0} dmg", &same), Ok("10% dmg".to_string()));
    let short = vec![s("10%"), s("20%")];
    assert_eq!(parse_level_format("{0}/{1}", &short), Ok("10%/10%".to_string()));
}

#[test]
fn level_format_refuses_rows_of_the_wrong_shape() {
    assert_eq!(parse_level_format("{0}", &vec![]), Err(ParseError::MissingField));
    assert_eq!(parse_level_format("{0}", &vec![n(1)]), Err(ParseError::WrongType));
    let bad_tenth = vec![s("1"), s("a"), s("a"), s("a"), s("a"), s("a"), s("a"), s("a"), s("a"), n(2)];
    assert_eq!(parse_level_format("{0}", &bad_tenth), Err(ParseError::WrongType));
}

#[test]
fn levels_are_read_with_default_format() {
    let levels = fields(vec![
        ("2", raw_level(s("{0} per hit"), "Damage", ten("5", "9"))),
        ("1", raw_level(Json::Null, "Rate", arr(vec![s("12%")]))),
    ]);
    let mut want: StrMap<Level> = StrMap::new();
    want.insert("1".to_string(), Level { format: "12%".to_string(), name: "Rate".to_string() });
    want.insert(
        "2".to_string(),
        Level { format: "[5|9] per hit".to_string(), name: "Damage".to_string() },
    );
    assert_eq!(parse_level(&levels), Ok(want));
}

#[test]
fn level_without_format_takes_the_default() {
    let levels = fields(vec![(
        "1",
        obj(vec![("Name", s("Cost")), ("Param", arr(vec![arr(vec![s("5")])]))]),
    )]);
    let mut want: StrMap<Level> = StrMap::new();
    want.insert("1".to_string(), Level { format: "5".to_string(), name: "Cost".to_string() });
    assert_eq!(parse_level(&levels), Ok(want));
}

#[test]
fn level_without_format_spans_the_ends_of_its_row() {
    let levels = fields(vec![(
        "1",
        obj(vec![("Name", s("Rate")), ("Param", arr(vec![ten("10%", "30%")]))]),
    )]);
    let mut want: StrMap<Level> = StrMap::new();
    want.insert(
        "1".to_string(),
        Level { format: "[10%|30%]".to_string(), name: "Rate".to_string() },
    );
    assert_eq!(parse_level(&levels), Ok(want));
}

#[test]
fn level_with_format_of_another_kind_takes_the_default() {
    let levels = fields(vec![
        ("1", raw_level(n(3), "A", arr(vec![s("7")]))),
        ("2", raw_level(arr(vec![]), "B", arr(vec![s("8")]))),
    ]);
    let mut want: StrMap<Level> = StrMap::new();
    want.insert("1".to_string(), Level { format: "7".to_string(), name: "A".to_string() });
    want.insert("2".to_string(), Level { format: "8".to_string(), name: "B".to_string() });
    assert_eq!(parse_level(&levels), Ok(want));
}

#[test]
fn levels_of_the_wrong_shape_are_refused() {
    let no_name = fields(vec![("1", obj(vec![("Format", s("{0}")), ("Param", arr(vec![arr(vec![s("1")])]))]))]);
    assert_eq!(parse_level(&no_name), Err(ParseError::MissingField));
    let no_param = fields(vec![("1", obj(vec![("Format", s("{0}")), ("Name", s("n"))]))]);
    assert_eq!(parse_level(&no_param), Err(ParseError::MissingField));
    let no_rows = fields(vec![("1", obj(vec![("Format", s("{0}")), ("Name", s("n")), ("Param", arr(vec![]))]))]);
    assert_eq!(parse_level(&no_rows), Err(ParseError::MissingField));
    let row_no_list = fields(vec![("1", raw_level(s("{0}"), "n", s("x")))]);
    assert_eq!(parse_level(&row_no_list), Err(ParseError::WrongType));
    let not_object = fields(vec![("1", n(1))]);
    assert_eq!(parse_level(&not_object), Err(ParseError::WrongType));
}

#[test]
fn rates_are_written_in_hundredths() {
    assert_eq!(format_rate(150, 200), "[1.5|2]%");
    assert_eq!(format_rate(5, 10), "[0.05|0.1]%");
    assert_eq!(format_rate(-5, 12345), "[-0.05|123.45]%");
    assert_eq!(format_rate(0, 0), "[0|0]%");
    assert_eq!(format_rate(-100, 99), "[-1|0.99]%");
    assert_eq!(format_rate(i64::MAX, i64::MIN), "[92233720368547758.07|-92233720368547758.08]%");
}

#[test]
fn rates_are_written_as_floating_point_writes_them() {
    for v in [0i64, 1, 9, 10, 11, 50, 99, 100, 101, 110, 199, 1000, 1234, 12345, 250000, -1, -10, -99, -100, -12345, 4503599627370497] {
        let float = v as f64 / 100.0;
        assert_eq!(format_rate(v, v), format!("[{float}|{float}]%"));
    }
}

#[test]
fn damage_is_read_with_its_rate_span() {
    let kinds = fields(vec![("100", raw_damage(150, 200)), ("20", raw_damage(1000, 1000))]);
    let one = |rate: &str| Damage {
        related_property: "ATK".to_string(),
        element: 1,
        element_power: 2,
        energy: 3,
        hardness_lv: 4,
        rate_lv: rate.to_string(),
        tough_lv: 5,
        type_field: 6,
    };
    let mut want: StrMap<Damage> = StrMap::new();
    want.insert("100".to_string(), one("[1.5|2]%"));
    want.insert("20".to_string(), one("[10|10]%"));
    assert_eq!(parse_damage(&kinds), Ok(want));
}

#[test]
fn damage_of_the_wrong_shape_is_refused() {
    let nine = fields(vec![(
        "1",
        obj(vec![
            ("Element", n(1)),
            ("ElementPower", n(2)),
            ("Energy", n(3)),
            ("HardnessLv", n(4)),
            ("RateLv", arr(vec![n(1), n(2), n(3), n(4), n(5), n(6), n(7), n(8), n(9)])),
            ("RelatedProperty", s("ATK")),
            ("ToughLv", n(5)),
            ("Type", n(6)),
        ]),
    )]);
    assert_eq!(parse_damage(&nine), Err(ParseError::MissingField));
    let no_energy = fields(vec![(
        "1",
        obj(vec![
            ("Element", n(1)),
            ("ElementPower", n(2)),
            ("HardnessLv", n(4)),
            ("RateLv", ten_rates(1, 2)),
            ("RelatedProperty", s("ATK")),
            ("ToughLv", n(5)),
            ("Type", n(6)),
        ]),
    )]);
    assert_eq!(parse_damage(&no_energy), Err(ParseError::MissingField));
    let real_rate = fields(vec![(
        "1",
        obj(vec![("RateLv", arr(vec![Json::Real]))]),
    )]);
    assert_eq!(parse_damage(&real_rate), Err(ParseError::WrongType));
}

#[test]
fn skill_description_needs_strings_as_parameters() {
    assert_eq!(
        render_skill_description("{0}\n{1}", &vec![s("a"), s("b")]),
        Ok("a: b".to_string())
    );
    assert_eq!(render_skill_description("{0}", &vec![n(1)]), Err(ParseError::WrongType));
}

#[test]
fn skill_costs_add_the_lists_together() {
    let lists = fields(vec![
        ("1", arr(vec![cost(42, 1), cost(7, 2)])),
        ("2", arr(vec![cost(42, 3), cost(42, 4)])),
        ("3", arr(vec![])),
    ]);
    let want: BTreeMap<i64, i64> = [(7, 2), (42, 8)].into_iter().collect();
    assert_eq!(parse_consume_map(&lists), Ok(want));
    assert_eq!(parse_consume_map(&fields(vec![("1", n(1))])), Err(ParseError::WrongType));
    let too_much = fields(vec![
        ("1", arr(vec![cost(1, i64::MAX)])),
        ("2", arr(vec![cost(1, 1)])),
    ]);
    assert_eq!(parse_consume_map(&too_much), Err(ParseError::QuantityOverflow));
}

#[test]
fn the_kinds_of_skill_part_at_five_fields() {
    assert_eq!(LEVELLED_FIELDS, 5);
    assert!(is_simple_skill(0));
    assert!(is_simple_skill(4));
    assert!(!is_simple_skill(5));
    assert!(!is_simple_skill(7));
}

#[test]
fn skill_of_three_fields_is_simple() {
    let got = parse_skill(&simple_skill()).unwrap();
    assert_eq!(
        got.0,
        SkillVariant::SkillS(SkillSmall {
            name: "Swift".to_string(),
            desc: "Gain 12%.Attack: up".to_string(),
        })
    );
    assert_eq!(got.1, BTreeMap::new());
}

#[test]
fn skill_of_four_fields_is_simple() {
    let mut skill = simple_skill();
    skill.insert("Type".to_string(), s("Basic"));
    assert_eq!(skill.len(), 4);
    let got = parse_skill(&skill).unwrap();
    assert!(matches!(got.0, SkillVariant::SkillS(_)));
    assert!(got.1.is_empty());
}

#[test]
fn skill_of_five_fields_is_levelled() {
    let mut skill = simple_skill();
    skill.insert("Icon".to_string(), s("a.png"));
    skill.insert("Sort".to_string(), n(1));
    assert_eq!(skill.len(), 5);
    assert_eq!(parse_skill(&skill), Err(ParseError::MissingField));
    let mut typed = simple_skill();
    typed.insert("Type".to_string(), n(1));
    typed.insert("Sort".to_string(), n(1));
    assert_eq!(typed.len(), 5);
    assert_eq!(parse_skill(&typed), Err(ParseError::WrongType));
}

#[test]
fn levelled_skill_is_read_whole() {
    let got = parse_skill(&levelled_skill()).unwrap();
    let mut level: StrMap<Level> = StrMap::new();
    level.insert("1".to_string(), Level { format: "[10%|30%]".to_string(), name: "Rate".to_string() });
    let mut damage: StrMap<Damage> = StrMap::new();
    damage.insert(
        "100".to_string(),
        Damage {
            related_property: "ATK".to_string(),
            element: 1,
            element_power: 2,
            energy: 3,
            hardness_lv: 4,
            rate_lv: "[1.5|2]%".to_string(),
            tough_lv: 5,
            type_field: 6,
        },
    );
    assert_eq!(
        got.0,
        SkillVariant::SkillL(SkillLarge {
            name: "Slash".to_string(),
            desc: "Deals fire".to_string(),
            type_field: "Basic".to_string(),
            level,
            damage,
        })
    );
    let costs: BTreeMap<i64, i64> = [(7, 2), (42, 8)].into_iter().collect();
    assert_eq!(got.1, costs);
}

#[test]
fn skill_without_name_is_refused() {
    let skill = fields(vec![("Desc", s("d")), ("Param", arr(vec![]))]);
    assert_eq!(parse_skill(&skill), Err(ParseError::MissingField));
    let no_list = fields(vec![("Name", s("n")), ("Desc", s("d")), ("Param", s("p"))]);
    assert_eq!(parse_skill(&no_list), Err(ParseError::WrongType));
}

#[test]
fn skill_tree_node_sums_its_costs_with_those_of_its_skill() {
    let trees = fields(vec![
        ("2", node(vec![cost(42, 10), cost(9, 1), cost(9, 1)], levelled_skill())),
        ("1", node(vec![cost(8, 5), cost(7, 6)], simple_skill())),
    ]);
    let got = parse_character_skilltrees(&trees, &catalog()).unwrap();
    assert_eq!(got.len(), 2);
    assert_eq!(got.key_at(0), "1");
    assert_eq!(got.key_at(1), "2");
    let first = got.value_at(0);
    assert_eq!(first.parent_nodes, vec![1, 5]);
    assert_eq!(first.node_type, 2);
    assert_eq!(first.coordinate, 3);
    assert_eq!(first.un_lock_condition, 9);
    assert_eq!(first.consume, named(&[("Shell", 5)]));
    assert!(matches!(first.skill, SkillVariant::SkillS(_)));
    let second = got.value_at(1);
    assert_eq!(second.consume, named(&[("9", 2), ("Crystal", 18), ("Shell", 2)]));
    assert!(matches!(second.skill, SkillVariant::SkillL(_)));
}

#[test]
fn skill_tree_without_catalog_keeps_the_numerals() {
    let trees = fields(vec![("1", node(vec![cost(42, 10), cost(7, 1)], levelled_skill()))]);
    let got = parse_character_skilltrees(&trees, &None).unwrap();
    assert_eq!(got.value_at(0).consume, named(&[("42", 18), ("7", 3)]));
}

#[test]
fn skill_tree_of_the_wrong_shape_is_refused() {
    assert_eq!(
        parse_character_skilltrees(&fields(vec![("1", n(1))]), &None),
        Err(ParseError::WrongType)
    );
    let no_skill = fields(vec![(
        "1",
        obj(vec![
            ("Consume", arr(vec![])),
            ("Coordinate", n(3)),
            ("NodeType", n(2)),
            ("ParentNodes", arr(vec![])),
            ("UnLockCondition", n(9)),
        ]),
    )]);
    assert_eq!(parse_character_skilltrees(&no_skill, &None), Err(ParseError::MissingField));
    let bad_parent = fields(vec![(
        "1",
        obj(vec![
            ("Consume", arr(vec![])),
            ("Coordinate", n(3)),
            ("NodeType", n(2)),
            ("ParentNodes", arr(vec![s("1")])),
            ("UnLockCondition", n(9)),
            ("Skill", Json::Object(simple_skill())),
        ]),
    )]);
    assert_eq!(parse_character_skilltrees(&bad_parent, &None), Err(ParseError::WrongType));
    let negative = fields(vec![("1", node(vec![cost(1, -2)], simple_skill()))]);
    assert_eq!(parse_character_skilltrees(&negative, &None), Err(ParseError::NegativeQuantity));
    let too_much = fields(vec![("1", node(vec![cost(42, i64::MAX)], levelled_skill()))]);
    assert_eq!(parse_character_skilltrees(&too_much, &None), Err(ParseError::QuantityOverflow));
}

#[test]
fn empty_skill_tree_is_empty() {
    assert_eq!(parse_character_skilltrees(&fields(vec![]), &None), Ok(StrMap::new()));
}

fn raw_character() -> Character {
    let mut chains: StrMap<ChainDescription> = StrMap::new();
    chains.insert(
        "1".to_string(),
        ChainDescription {
            name: "First".to_string(),
            desc: "Deals {0} damage.\nCounter\n-boost".to_string(),
            param: vec!["100".to_string()],
        },
    );
    let mut ascensions: StrMap<Vec<Consume>> = StrMap::new();
    ascensions.insert("1".to_string(), vec![Consume { key: 42, value: 4 }]);
    Character {
        id: 1402,
        rarity: 5,
        weapon: 2,
        element: 3,
        tag: obj(vec![("1", obj(vec![("Name", s("Support")), ("Desc", s("helps"))]))]),
        name: "Yangyang".to_string(),
        stats: ParsedStats { life: 10, atk: 3, def: -3 },
        skill_trees: fields(vec![("1", node(vec![cost(8, 5)], simple_skill()))]),
        chains,
        ascensions,
    }
}

#[test]
fn character_is_assembled_from_its_parts() {
    let got: ParsedCharacter = parse_character(&raw_character(), &catalog()).unwrap();
    assert_eq!(got.id, 1402);
    assert_eq!(got.name, "Yangyang");
    assert_eq!(got.rarity, 5);
    assert_eq!(got.weapon, 2);
    assert_eq!(got.element, 3);
    assert_eq!(got.stats, ParsedStats { life: 10, atk: 3, def: -3 });
    assert_eq!(got.tags, vec![ParsedTag { name: "Support".to_string(), desc: "helps".to_string() }]);
    assert_eq!(got.skills.len(), 1);
    let want_node = SkillTree {
        parent_nodes: vec![1, 5],
        node_type: 2,
        consume: named(&[("Shell", 5)]),
        coordinate: 3,
        un_lock_condition: 9,
        skill: SkillVariant::SkillS(SkillSmall {
            name: "Swift".to_string(),
            desc: "Gain 12%.Attack: up".to_string(),
        }),
    };
    assert_eq!(got.skills.get("1"), Some(&want_node));
    assert_eq!(
        got.chains.get("1"),
        Some(&ParsedChainDescription {
            name: "First".to_string(),
            desc: "Deals 100 damage.Counter: -boost".to_string(),
        })
    );
    assert_eq!(got.ascensions.get("1"), Some(&named(&[("Crystal", 4)])));
}

#[test]
fn character_with_bad_tags_is_refused() {
    let mut raw = raw_character();
    raw.tag = Json::Null;
    assert_eq!(parse_character(&raw, &None), Err(ParseError::WrongType));
}
