//! From the raw record of a character to its canonical record.
//!
//! For every step there is a spec function that says what the step gives
//! for every raw value: the canonical value, or the error of the first
//! thing that is missing or of the wrong kind, in the order in which
//! the fields are read.

use vstd::prelude::*;
use std::collections::BTreeMap;
use crate::character::{ChainDescription, Character, Consume};
use crate::costs::{aggregate, aggregated, clash, entries_of, listing, merge_costs, merged};
use crate::json::{
    as_fields,
    as_int,
    as_list,
    as_text,
    collected,
    int_field,
    lemma_collected_fails,
    lemma_collected_none,
    lemma_collected_step,
    list_field,
    need_fields,
    need_int,
    need_list,
    need_text,
    object_field,
    text_field,
    Json,
    ParseError,
};
use crate::parsed_character::{
    views,
    Damage,
    DamageView,
    Level,
    LevelView,
    ParsedChainDescription,
    ParsedChainDescriptionView,
    ParsedCharacter,
    ParsedCharacterView,
    ParsedTag,
    ParsedTagView,
    SkillLarge,
    SkillLargeView,
    SkillSmall,
    SkillSmallView,
    SkillTree,
    SkillTreeView,
    SkillVariant,
    SkillVariantView,
};
use crate::str_map::{ascending, lemma_placed_view, put, StrMap};
use crate::templating::{level_format, render_description, render_level_format, rendered};
use crate::text::{
    decimal,
    hundredths,
    push_hundredths,
    string_from_chars,
    text_lt,
    texts,
    to_decimal,
};

verus! {

/// The name that a catalog entry gives.
pub open spec fn catalog_name(entry: Json) -> Result<Seq<char>, ParseError> {
    match as_fields(entry) {
        Ok(f) => need_text(f, "name"@),
        Err(e) => Err(e),
    }
}

/// The name of the resource `id` by the catalog `items`: the name of the
/// entry under the decimal numeral of `id`, and the numeral itself where
/// there is no such entry.
pub open spec fn named(items: Json, id: i64) -> Result<Seq<char>, ParseError> {
    match items {
        Json::Object(m) => match m.value_of(decimal(id as int)) {
            Some(entry) => catalog_name(entry),
            None => Ok(decimal(id as int)),
        },
        _ => Ok(decimal(id as int)),
    }
}

/// The name of the resource `id`: by the catalog where there is one, and
/// else the decimal numeral of `id`.
pub open spec fn resolved(catalog: Option<Json>, id: i64) -> Result<Seq<char>, ParseError> {
    match catalog {
        Some(items) => named(items, id),
        None => Ok(decimal(id as int)),
    }
}

/// The costs by the names of their resources, put under the names in the
/// order of the list: of two entries with one name the later one stays.
pub open spec fn named_costs(catalog: Option<Json>, costs: Seq<Consume>) -> Result<
    Seq<(Seq<char>, i64)>,
    ParseError,
>
    decreases costs.len(),
{
    if costs.len() == 0 {
        Ok(Seq::empty())
    } else {
        match named_costs(catalog, costs.drop_last()) {
            Err(e) => Err(e),
            Ok(m) => match resolved(catalog, costs.last().key) {
                Err(e) => Err(e),
                Ok(n) => Ok(put(m, n, costs.last().value)),
            },
        }
    }
}

/// What `named_costs` gives for one entry more.
pub proof fn lemma_named_costs_step(catalog: Option<Json>, costs: Seq<Consume>, n: int)
    requires
        0 <= n < costs.len(),
    ensures
        named_costs(catalog, costs.take(n + 1)) == match named_costs(catalog, costs.take(n)) {
            Err(e) => Err::<Seq<(Seq<char>, i64)>, ParseError>(e),
            Ok(m) => match resolved(catalog, costs[n].key) {
                Err(e) => Err(e),
                Ok(name) => Ok(put(m, name, costs[n].value)),
            },
        },
{
    assert(costs.take(n + 1).drop_last() == costs.take(n));
    assert(costs.take(n + 1).last() == costs[n]);
}

/// A name that cannot be had among the first entries fails the whole list.
pub proof fn lemma_named_costs_fails(catalog: Option<Json>, costs: Seq<Consume>, n: int)
    requires
        0 <= n <= costs.len(),
        named_costs(catalog, costs.take(n)) is Err,
    ensures
        named_costs(catalog, costs) == named_costs(catalog, costs.take(n)),
    decreases costs.len() - n,
{
    if n < costs.len() {
        lemma_named_costs_step(catalog, costs, n);
        lemma_named_costs_fails(catalog, costs, n + 1);
    } else {
        assert(costs.take(n) == costs);
    }
}

/// The name of the resource `key` by the catalog `items`.
pub fn match_value(items: &Json, key: &i64) -> (r: Result<String, ParseError>)
    ensures
        match r {
            Ok(s) => named(*items, *key) == Ok::<Seq<char>, ParseError>(s@),
            Err(e) => named(*items, *key) == Err::<Seq<char>, ParseError>(e),
        },
{
    let key_str: String = to_decimal(*key);
    match items {
        Json::Object(m) => match m.get(key_str.as_str()) {
            Some(entry) => {
                let fields = entry.as_object()?;
                let name = text_field(fields, "name")?;
                Ok(name.clone())
            },
            None => Ok(key_str),
        },
        _ => Ok(key_str),
    }
}

/// The name of the resource `id`, by the catalog if there is one.
pub fn resolve(catalog: &Option<Json>, id: i64) -> (r: Result<String, ParseError>)
    ensures
        match r {
            Ok(s) => resolved(*catalog, id) == Ok::<Seq<char>, ParseError>(s@),
            Err(e) => resolved(*catalog, id) == Err::<Seq<char>, ParseError>(e),
        },
{
    match catalog {
        Some(items) => match_value(items, &id),
        None => Ok(to_decimal(id)),
    }
}

/// The costs of a list by the names of their resources.
pub fn name_entries(items: &Option<Json>, costs: &Vec<Consume>) -> (r: Result<
    StrMap<i64>,
    ParseError,
>)
    ensures
        match r {
            Ok(m) => named_costs(*items, costs@) == Ok::<Seq<(Seq<char>, i64)>, ParseError>(m@),
            Err(e) => named_costs(*items, costs@) == Err::<Seq<(Seq<char>, i64)>, ParseError>(e),
        },
{
    let mut out: StrMap<i64> = StrMap::new();
    let mut i: usize = 0;
    assert(costs@.take(0).len() == 0);
    assert(out@ =~= Seq::<(Seq<char>, i64)>::empty());
    while i < costs.len()
        invariant
            0 <= i <= costs.len(),
            named_costs(*items, costs@.take(i as int)) == Ok::<Seq<(Seq<char>, i64)>, ParseError>(
                out@,
            ),
        decreases costs.len() - i,
    {
        proof {
            lemma_named_costs_step(*items, costs@, i as int);
        }
        let name = match resolve(items, costs[i].key) {
            Ok(n) => n,
            Err(e) => {
                proof {
                    lemma_named_costs_fails(*items, costs@, i + 1);
                }
                return Err(e);
            },
        };
        proof {
            lemma_placed_view(out.entries(), name, costs@[i as int].value);
        }
        out.insert(name, costs[i].value);
        i = i + 1;
    }
    assert(costs@.take(costs.len() as int) == costs@);
    Ok(out)
}

/// The costs of a cost map by the names of their resources, put under
/// the names in ascending order of the resources' numbers.
pub fn match_item_names(items: &Option<Json>, map: &BTreeMap<i64, i64>) -> (r: Result<
    StrMap<i64>,
    ParseError,
>)
    ensures
        match r {
            Ok(m) => named_costs(*items, listing(map@)) == Ok::<
                Seq<(Seq<char>, i64)>,
                ParseError,
            >(m@),
            Err(e) => named_costs(*items, listing(map@)) == Err::<
                Seq<(Seq<char>, i64)>,
                ParseError,
            >(e),
        },
{
    let list: Vec<Consume> = entries_of(map);
    name_entries(items, &list)
}

/// Whether `out` has the keys of the first `n` entries of `from`, in
/// order.
pub open spec fn follows<V, W>(out: Seq<(String, W)>, from: Seq<(String, V)>, n: int) -> bool {
    &&& out.len() == n
    &&& n <= from.len()
    &&& forall|j: int| 0 <= j < n ==> (#[trigger] out[j]).0@ == from[j].0@
}

/// One ascension tier: its key, and its costs by the names of their
/// resources, of two entries with one name the later one.
pub open spec fn tier_of(catalog: Option<Json>, tier: (String, Vec<Consume>)) -> Result<
    (Seq<char>, Seq<(Seq<char>, i64)>),
    ParseError,
> {
    match named_costs(catalog, tier.1@) {
        Ok(m) => Ok((tier.0@, m)),
        Err(e) => Err(e),
    }
}

/// The ascension tiers with their costs by name, tier by tier.
pub open spec fn ascension_tiers(
    catalog: Option<Json>,
    tiers: Seq<(String, Vec<Consume>)>,
) -> Result<Seq<(Seq<char>, Seq<(Seq<char>, i64)>)>, ParseError> {
    collected(tiers.map_values(|t: (String, Vec<Consume>)| tier_of(catalog, t)))
}

/// Resolves the cost list of every ascension tier to the names of its
/// resources. Within one tier nothing is added up.
pub fn parse_ascensions(item_map: &Option<Json>, ascensions: &StrMap<Vec<Consume>>) -> (r: Result<
    StrMap<StrMap<i64>>,
    ParseError,
>)
    ensures
        match r {
            Ok(m) => ascension_tiers(*item_map, ascensions.entries()) == Ok::<
                Seq<(Seq<char>, Seq<(Seq<char>, i64)>)>,
                ParseError,
            >(m@),
            Err(e) => ascension_tiers(*item_map, ascensions.entries()) == Err::<
                Seq<(Seq<char>, Seq<(Seq<char>, i64)>)>,
                ParseError,
            >(e),
        },
{
    let mut all_asc_map: StrMap<StrMap<i64>> = StrMap::new();
    let ghost rs = ascensions.entries().map_values(
        |t: (String, Vec<Consume>)| tier_of(*item_map, t),
    );
    ascensions.ordered();
    proof {
        lemma_collected_none(rs);
        assert(all_asc_map@ =~= Seq::empty());
    }
    let mut i: usize = 0;
    while i < ascensions.len()
        invariant
            0 <= i <= ascensions.entries().len(),
            rs == ascensions.entries().map_values(
                |t: (String, Vec<Consume>)| tier_of(*item_map, t),
            ),
            ascending(ascensions.keys()),
            follows(all_asc_map.entries(), ascensions.entries(), i as int),
            collected(rs.take(i as int)) == Ok::<
                Seq<(Seq<char>, Seq<(Seq<char>, i64)>)>,
                ParseError,
            >(all_asc_map@),
        decreases ascensions.entries().len() - i,
    {
        let key = ascensions.key_at(i);
        let list = ascensions.value_at(i);
        proof {
            lemma_collected_step(rs, i as int);
        }
        let this_asc_map = match name_entries(item_map, list) {
            Ok(m) => m,
            Err(e) => {
                proof {
                    lemma_collected_fails(rs, i + 1);
                }
                return Err(e);
            },
        };
        let ghost before = all_asc_map@;
        proof {
            if i > 0 {
                assert(ascensions.keys()[i - 1] == all_asc_map.entries().last().0@);
                assert(text_lt(ascensions.keys()[i - 1], ascensions.keys()[i as int]));
            }
        }
        all_asc_map.push_last(key.clone(), this_asc_map);
        assert(all_asc_map@ =~= before.push((key@, this_asc_map@)));
        i = i + 1;
    }
    assert(rs.take(rs.len() as int) == rs);
    Ok(all_asc_map)
}

/// What a chain is in the canonical record: its name, and its description
/// rendered with its own parameters.
pub open spec fn chain_of(chain: ChainDescription) -> ParsedChainDescriptionView {
    ParsedChainDescriptionView {
        name: chain.name@,
        desc: rendered(chain.desc@, texts(chain.param@)),
    }
}

/// The chains of the canonical record, chain by chain.
pub open spec fn parsed_chains(chains: Seq<(String, ChainDescription)>) -> Seq<
    (Seq<char>, ParsedChainDescriptionView),
> {
    chains.map_values(|c: (String, ChainDescription)| (c.0@, chain_of(c.1)))
}

/// Renders the description of every chain with the chain's parameters.
/// The parameters are not kept.
pub fn parse_chains(chains: &StrMap<ChainDescription>) -> (r: StrMap<ParsedChainDescription>)
    ensures
        r@ == parsed_chains(chains.entries()),
{
    let mut parsed: StrMap<ParsedChainDescription> = StrMap::new();
    chains.ordered();
    assert(parsed@ =~= parsed_chains(chains.entries()).take(0));
    let mut i: usize = 0;
    while i < chains.len()
        invariant
            0 <= i <= chains.entries().len(),
            ascending(chains.keys()),
            follows(parsed.entries(), chains.entries(), i as int),
            parsed@ == parsed_chains(chains.entries()).take(i as int),
        decreases chains.entries().len() - i,
    {
        let key = chains.key_at(i);
        let chain = chains.value_at(i);
        let desc = render_description(chain.desc.as_str(), &chain.param);
        let item = ParsedChainDescription { name: chain.name.clone(), desc };
        let ghost before = parsed@;
        proof {
            if i > 0 {
                assert(chains.keys()[i - 1] == parsed.entries().last().0@);
                assert(text_lt(chains.keys()[i - 1], chains.keys()[i as int]));
            }
        }
        parsed.push_last(key.clone(), item);
        assert(parsed@ =~= before.push((key@, item@)));
        assert(parsed@ =~= parsed_chains(chains.entries()).take(i + 1));
        i = i + 1;
    }
    assert(parsed_chains(chains.entries()).take(chains.entries().len() as int)
        == parsed_chains(chains.entries()));
    parsed
}

/// The tag that `j` holds.
pub open spec fn tag_of(j: Json) -> Result<ParsedTagView, ParseError> {
    match as_fields(j) {
        Err(e) => Err(e),
        Ok(f) => match need_text(f, "Name"@) {
            Err(e) => Err(e),
            Ok(name) => match need_text(f, "Desc"@) {
                Err(e) => Err(e),
                Ok(desc) => Ok(ParsedTagView { name, desc }),
            },
        },
    }
}

/// The tags that `tags` holds, in ascending order of their keys.
pub open spec fn parsed_tags(tags: Json) -> Result<Seq<ParsedTagView>, ParseError> {
    match as_fields(tags) {
        Err(e) => Err(e),
        Ok(f) => collected(f.entries().map_values(|t: (String, Json)| tag_of(t.1))),
    }
}

fn parse_tag(j: &Json) -> (r: Result<ParsedTag, ParseError>)
    ensures
        match r {
            Ok(t) => tag_of(*j) == Ok::<ParsedTagView, ParseError>(t@),
            Err(e) => tag_of(*j) == Err::<ParsedTagView, ParseError>(e),
        },
{
    let value = j.as_object()?;
    let name = text_field(value, "Name")?.clone();
    let desc = text_field(value, "Desc")?.clone();
    Ok(ParsedTag { name, desc })
}

/// Reads the tags of a character, which stand in an object of objects.
pub fn parse_character_tag(tags: &Json) -> (r: Result<Vec<ParsedTag>, ParseError>)
    ensures
        match r {
            Ok(v) => parsed_tags(*tags) == Ok::<Seq<ParsedTagView>, ParseError>(views(v@)),
            Err(e) => parsed_tags(*tags) == Err::<Seq<ParsedTagView>, ParseError>(e),
        },
{
    let values = tags.as_object()?;
    let ghost rs = values.entries().map_values(|t: (String, Json)| tag_of(t.1));
    let mut new_tags: Vec<ParsedTag> = Vec::new();
    proof {
        lemma_collected_none(rs);
        assert(views(new_tags@) =~= Seq::empty());
    }
    let mut i: usize = 0;
    while i < values.len()
        invariant
            0 <= i <= values.entries().len(),
            as_fields(*tags) == Ok::<StrMap<Json>, ParseError>(*values),
            rs == values.entries().map_values(|t: (String, Json)| tag_of(t.1)),
            collected(rs.take(i as int)) == Ok::<Seq<ParsedTagView>, ParseError>(views(new_tags@)),
        decreases values.entries().len() - i,
    {
        proof {
            lemma_collected_step(rs, i as int);
        }
        let new_tag = match parse_tag(values.value_at(i)) {
            Ok(t) => t,
            Err(e) => {
                proof {
                    lemma_collected_fails(rs, i + 1);
                }
                return Err(e);
            },
        };
        let ghost before = views(new_tags@);
        new_tags.push(new_tag);
        assert(views(new_tags@) =~= before.push(new_tag@));
        i = i + 1;
    }
    assert(rs.take(rs.len() as int) == rs);
    Ok(new_tags)
}

/// The cost entry that `j` holds.
pub open spec fn consume_of(j: Json) -> Result<Consume, ParseError> {
    match as_fields(j) {
        Err(e) => Err(e),
        Ok(f) => match need_int(f, "Key"@) {
            Err(e) => Err(e),
            Ok(key) => match need_int(f, "Value"@) {
                Err(e) => Err(e),
                Ok(value) => Ok(Consume { key, value }),
            },
        },
    }
}

/// The cost entries that a list holds.
pub open spec fn consumes_of(list: Seq<Json>) -> Result<Seq<Consume>, ParseError> {
    collected(list.map_values(|j: Json| consume_of(j)))
}

/// What a raw cost list adds up to.
pub open spec fn consumed(list: Seq<Json>) -> Result<Map<i64, i64>, ParseError> {
    match consumes_of(list) {
        Err(e) => Err(e),
        Ok(entries) => aggregated(entries),
    }
}

fn parse_consume(j: &Json) -> (r: Result<Consume, ParseError>)
    ensures
        r == consume_of(*j),
{
    let con = j.as_object()?;
    let key = int_field(con, "Key")?;
    let value = int_field(con, "Value")?;
    Ok(Consume { key, value })
}

/// Reads the entries of a raw cost list.
pub fn parse_consumes(list: &Vec<Json>) -> (r: Result<Vec<Consume>, ParseError>)
    ensures
        match r {
            Ok(v) => consumes_of(list@) == Ok::<Seq<Consume>, ParseError>(v@),
            Err(e) => consumes_of(list@) == Err::<Seq<Consume>, ParseError>(e),
        },
{
    let ghost rs = list@.map_values(|j: Json| consume_of(j));
    let mut out: Vec<Consume> = Vec::new();
    proof {
        lemma_collected_none(rs);
    }
    let mut i: usize = 0;
    while i < list.len()
        invariant
            0 <= i <= list.len(),
            rs == list@.map_values(|j: Json| consume_of(j)),
            collected(rs.take(i as int)) == Ok::<Seq<Consume>, ParseError>(out@),
        decreases list.len() - i,
    {
        proof {
            lemma_collected_step(rs, i as int);
        }
        let con = match parse_consume(&list[i]) {
            Ok(c) => c,
            Err(e) => {
                proof {
                    lemma_collected_fails(rs, i + 1);
                }
                return Err(e);
            },
        };
        out.push(con);
        i = i + 1;
    }
    assert(rs.take(rs.len() as int) == rs);
    Ok(out)
}

/// Reads a raw cost list and adds it up, resource by resource.
pub fn consume_costs(consume: &Vec<Json>) -> (r: Result<BTreeMap<i64, i64>, ParseError>)
    ensures
        match r {
            Ok(m) => consumed(consume@) == Ok::<Map<i64, i64>, ParseError>(m@),
            Err(e) => consumed(consume@) == Err::<Map<i64, i64>, ParseError>(e),
        },
{
    let entries = parse_consumes(consume)?;
    aggregate(&entries)
}

/// The strings that a list holds.
pub open spec fn text_list(items: Seq<Json>) -> Result<Seq<Seq<char>>, ParseError> {
    collected(items.map_values(|j: Json| as_text(j)))
}

/// The integers that a list holds.
pub open spec fn int_list(items: Seq<Json>) -> Result<Seq<i64>, ParseError> {
    collected(items.map_values(|j: Json| as_int(j)))
}

/// Reads a list of strings.
pub fn parse_texts(items: &Vec<Json>) -> (r: Result<Vec<String>, ParseError>)
    ensures
        match r {
            Ok(v) => text_list(items@) == Ok::<Seq<Seq<char>>, ParseError>(texts(v@)),
            Err(e) => text_list(items@) == Err::<Seq<Seq<char>>, ParseError>(e),
        },
{
    let ghost rs = items@.map_values(|j: Json| as_text(j));
    let mut out: Vec<String> = Vec::new();
    proof {
        lemma_collected_none(rs);
        assert(texts(out@) =~= Seq::empty());
    }
    let mut i: usize = 0;
    while i < items.len()
        invariant
            0 <= i <= items.len(),
            rs == items@.map_values(|j: Json| as_text(j)),
            collected(rs.take(i as int)) == Ok::<Seq<Seq<char>>, ParseError>(texts(out@)),
        decreases items.len() - i,
    {
        proof {
            lemma_collected_step(rs, i as int);
        }
        let text = match items[i].as_str() {
            Ok(t) => t.clone(),
            Err(e) => {
                proof {
                    lemma_collected_fails(rs, i + 1);
                }
                return Err(e);
            },
        };
        let ghost before = texts(out@);
        out.push(text);
        assert(texts(out@) =~= before.push(text@));
        i = i + 1;
    }
    assert(rs.take(rs.len() as int) == rs);
    Ok(out)
}

/// Reads a list of integers.
pub fn parse_ints(items: &Vec<Json>) -> (r: Result<Vec<i64>, ParseError>)
    ensures
        match r {
            Ok(v) => int_list(items@) == Ok::<Seq<i64>, ParseError>(v@),
            Err(e) => int_list(items@) == Err::<Seq<i64>, ParseError>(e),
        },
{
    let ghost rs = items@.map_values(|j: Json| as_int(j));
    let mut out: Vec<i64> = Vec::new();
    proof {
        lemma_collected_none(rs);
    }
    let mut i: usize = 0;
    while i < items.len()
        invariant
            0 <= i <= items.len(),
            rs == items@.map_values(|j: Json| as_int(j)),
            collected(rs.take(i as int)) == Ok::<Seq<i64>, ParseError>(out@),
        decreases items.len() - i,
    {
        proof {
            lemma_collected_step(rs, i as int);
        }
        let number = match items[i].as_i64() {
            Ok(n) => n,
            Err(e) => {
                proof {
                    lemma_collected_fails(rs, i + 1);
                }
                return Err(e);
            },
        };
        out.push(number);
        i = i + 1;
    }
    assert(rs.take(rs.len() as int) == rs);
    Ok(out)
}

/// What the description of a skill renders to with the skill's
/// parameters, which have to be strings.
pub open spec fn skill_description(desc: Seq<char>, param: Seq<Json>) -> Result<
    Seq<char>,
    ParseError,
> {
    match text_list(param) {
        Err(e) => Err(e),
        Ok(params) => Ok(rendered(desc, params)),
    }
}

/// Renders the description of a skill with the skill's raw parameters.
pub fn render_skill_description(desc: &str, param: &Vec<Json>) -> (r: Result<String, ParseError>)
    ensures
        match r {
            Ok(s) => skill_description(desc@, param@) == Ok::<Seq<char>, ParseError>(s@),
            Err(e) => skill_description(desc@, param@) == Err::<Seq<char>, ParseError>(e),
        },
{
    let new_param = parse_texts(param)?;
    Ok(render_description(desc, &new_param))
}

/// A result under a key.
pub open spec fn keyed<T>(key: Seq<char>, r: Result<T, ParseError>) -> Result<
    (Seq<char>, T),
    ParseError,
> {
    match r {
        Ok(v) => Ok((key, v)),
        Err(e) => Err(e),
    }
}

/// The format of a level: what is given, or, where nothing is given, the
/// placeholder of the first parameter alone.
pub fn parse_format(test_text: Option<&str>) -> (r: String)
    ensures
        r@ == match test_text {
            Some(text) => text@,
            None => "{0}"@,
        },
{
    match test_text {
        Some(text) => text.to_owned(),
        None => "{0}".to_owned(),
    }
}

/// The format of a level by its field `Format`: the string that the field
/// holds, and the placeholder of the first parameter alone where the
/// field is missing or holds anything else.
pub open spec fn format_of(field: Option<Json>) -> Seq<char> {
    match field {
        Some(Json::Str(s)) => s@,
        _ => "{0}"@,
    }
}

/// The first row of a level's parameters.
pub open spec fn first_row(rows: Seq<Json>) -> Result<Seq<Json>, ParseError> {
    if rows.len() == 0 {
        Err(ParseError::MissingField)
    } else {
        as_list(rows[0])
    }
}

/// The first parameter of a row and, where the row has one, the tenth.
pub open spec fn span_ends(params: Seq<Json>) -> Result<
    (Seq<char>, Option<Seq<char>>),
    ParseError,
> {
    if params.len() == 0 {
        Err(ParseError::MissingField)
    } else {
        match as_text(params[0]) {
            Err(e) => Err(e),
            Ok(first) => if params.len() > 9 {
                match as_text(params[9]) {
                    Err(e) => Err(e),
                    Ok(tenth) => Ok((first, Some(tenth))),
                }
            } else {
                Ok((first, None))
            },
        }
    }
}

/// What a level's format becomes with the parameters of a row: every
/// placeholder becomes the span of the row's first and tenth parameter.
pub open spec fn level_text(format: Seq<char>, params: Seq<Json>) -> Result<
    Seq<char>,
    ParseError,
> {
    match span_ends(params) {
        Err(e) => Err(e),
        Ok(ends) => Ok(level_format(format, ends.0, ends.1)),
    }
}

/// Fills the placeholders of a level's format from the raw parameters of
/// a row.
pub fn parse_level_format(level_format: &str, params: &Vec<Json>) -> (r: Result<
    String,
    ParseError,
>)
    ensures
        match r {
            Ok(s) => level_text(level_format@, params@) == Ok::<Seq<char>, ParseError>(s@),
            Err(e) => level_text(level_format@, params@) == Err::<Seq<char>, ParseError>(e),
        },
{
    if params.len() == 0 {
        return Err(ParseError::MissingField);
    }
    let n0 = params[0].as_str()?;
    if params.len() > 9 {
        let n9 = params[9].as_str()?;
        Ok(render_level_format(level_format, n0.as_str(), Some(n9.as_str())))
    } else {
        Ok(render_level_format(level_format, n0.as_str(), None))
    }
}

/// The level that `j` holds: its name, and its format, or the default
/// format where it has none, with the span of the first row filled in.
pub open spec fn level_of(j: Json) -> Result<LevelView, ParseError> {
    match as_fields(j) {
        Err(e) => Err(e),
        Ok(f) => match need_text(f, "Name"@) {
            Err(e) => Err(e),
            Ok(name) => match need_list(f, "Param"@) {
                Err(e) => Err(e),
                Ok(rows) => match first_row(rows) {
                    Err(e) => Err(e),
                    Ok(params) => match level_text(format_of(f.value_of("Format"@)), params) {
                        Err(e) => Err(e),
                        Ok(text) => Ok(LevelView { format: text, name }),
                    },
                },
            },
        },
    }
}

/// The levels of a levelled skill, level by level.
pub open spec fn levels_of(levels: Seq<(String, Json)>) -> Result<
    Seq<(Seq<char>, LevelView)>,
    ParseError,
> {
    collected(levels.map_values(|l: (String, Json)| keyed(l.0@, level_of(l.1))))
}

fn parse_one_level(j: &Json) -> (r: Result<Level, ParseError>)
    ensures
        match r {
            Ok(l) => level_of(*j) == Ok::<LevelView, ParseError>(l@),
            Err(e) => level_of(*j) == Err::<LevelView, ParseError>(e),
        },
{
    let level_obj = j.as_object()?;
    let format: String = parse_format(
        match level_obj.get("Format") {
            Some(Json::Str(s)) => Some(s.as_str()),
            _ => None,
        },
    );
    let name = text_field(level_obj, "Name")?.clone();
    let param1 = list_field(level_obj, "Param")?;
    if param1.len() == 0 {
        return Err(ParseError::MissingField);
    }
    let param_list = param1[0].as_array()?;
    let format = parse_level_format(format.as_str(), param_list)?;
    Ok(Level { format, name })
}

/// Reads the levels of a levelled skill.
pub fn parse_level(level: &StrMap<Json>) -> (r: Result<StrMap<Level>, ParseError>)
    ensures
        match r {
            Ok(m) => levels_of(level.entries()) == Ok::<Seq<(Seq<char>, LevelView)>, ParseError>(
                m@,
            ),
            Err(e) => levels_of(level.entries()) == Err::<Seq<(Seq<char>, LevelView)>, ParseError>(
                e,
            ),
        },
{
    let mut level_map: StrMap<Level> = StrMap::new();
    let ghost rs = level.entries().map_values(|l: (String, Json)| keyed(l.0@, level_of(l.1)));
    level.ordered();
    proof {
        lemma_collected_none(rs);
        assert(level_map@ =~= Seq::empty());
    }
    let mut i: usize = 0;
    while i < level.len()
        invariant
            0 <= i <= level.entries().len(),
            rs == level.entries().map_values(|l: (String, Json)| keyed(l.0@, level_of(l.1))),
            ascending(level.keys()),
            follows(level_map.entries(), level.entries(), i as int),
            collected(rs.take(i as int)) == Ok::<Seq<(Seq<char>, LevelView)>, ParseError>(
                level_map@,
            ),
        decreases level.entries().len() - i,
    {
        let key = level.key_at(i);
        proof {
            lemma_collected_step(rs, i as int);
        }
        let new_level = match parse_one_level(level.value_at(i)) {
            Ok(l) => l,
            Err(e) => {
                proof {
                    lemma_collected_fails(rs, i + 1);
                }
                return Err(e);
            },
        };
        let ghost before = level_map@;
        proof {
            if i > 0 {
                assert(level.keys()[i - 1] == level_map.entries().last().0@);
                assert(text_lt(level.keys()[i - 1], level.keys()[i as int]));
            }
        }
        level_map.push_last(key.clone(), new_level);
        assert(level_map@ =~= before.push((key@, new_level@)));
        i = i + 1;
    }
    assert(rs.take(rs.len() as int) == rs);
    Ok(level_map)
}

/// The span of two rates, which are given in hundredths: both in square
/// brackets with a bar between them, and a percent sign behind.
pub open spec fn rate_span(first: i64, tenth: i64) -> Seq<char> {
    seq!['['] + hundredths(first as int) + seq!['|'] + hundredths(tenth as int) + seq![']', '%']
}

/// The span of the first and the tenth of a list of rates.
pub open spec fn rate_of(rates: Seq<Json>) -> Result<Seq<char>, ParseError> {
    if rates.len() == 0 {
        Err(ParseError::MissingField)
    } else {
        match as_int(rates[0]) {
            Err(e) => Err(e),
            Ok(first) => if rates.len() <= 9 {
                Err(ParseError::MissingField)
            } else {
                match as_int(rates[9]) {
                    Err(e) => Err(e),
                    Ok(tenth) => Ok(rate_span(first, tenth)),
                }
            },
        }
    }
}

/// Writes the span of two rates.
pub fn format_rate(first: i64, tenth: i64) -> (r: String)
    ensures
        r@ == rate_span(first, tenth),
{
    let mut out: Vec<char> = Vec::new();
    out.push('[');
    push_hundredths(&mut out, first);
    out.push('|');
    push_hundredths(&mut out, tenth);
    out.push(']');
    out.push('%');
    assert(out@ =~= rate_span(first, tenth));
    string_from_chars(&out)
}

/// The damage that `j` holds.
pub open spec fn damage_of(j: Json) -> Result<DamageView, ParseError> {
    match as_fields(j) {
        Err(e) => Err(e),
        Ok(f) => match need_list(f, "RateLv"@) {
            Err(e) => Err(e),
            Ok(rates) => match rate_of(rates) {
                Err(e) => Err(e),
                Ok(rate_lv) => match need_int(f, "Element"@) {
                    Err(e) => Err(e),
                    Ok(element) => match need_int(f, "ElementPower"@) {
                        Err(e) => Err(e),
                        Ok(element_power) => match need_int(f, "Energy"@) {
                            Err(e) => Err(e),
                            Ok(energy) => match need_int(f, "HardnessLv"@) {
                                Err(e) => Err(e),
                                Ok(hardness_lv) => match need_text(f, "RelatedProperty"@) {
                                    Err(e) => Err(e),
                                    Ok(related_property) => match need_int(f, "ToughLv"@) {
                                        Err(e) => Err(e),
                                        Ok(tough_lv) => match need_int(f, "Type"@) {
                                            Err(e) => Err(e),
                                            Ok(type_field) => Ok(
                                                DamageView {
                                                    related_property,
                                                    element,
                                                    element_power,
                                                    energy,
                                                    hardness_lv,
                                                    rate_lv,
                                                    tough_lv,
                                                    type_field,
                                                },
                                            ),
                                        },
                                    },
                                },
                            },
                        },
                    },
                },
            },
        },
    }
}

/// The kinds of damage of a levelled skill, kind by kind.
pub open spec fn damages_of(damage: Seq<(String, Json)>) -> Result<
    Seq<(Seq<char>, DamageView)>,
    ParseError,
> {
    collected(damage.map_values(|d: (String, Json)| keyed(d.0@, damage_of(d.1))))
}

fn parse_rate(rates: &Vec<Json>) -> (r: Result<String, ParseError>)
    ensures
        match r {
            Ok(s) => rate_of(rates@) == Ok::<Seq<char>, ParseError>(s@),
            Err(e) => rate_of(rates@) == Err::<Seq<char>, ParseError>(e),
        },
{
    if rates.len() == 0 {
        return Err(ParseError::MissingField);
    }
    let n0 = rates[0].as_i64()?;
    if rates.len() <= 9 {
        return Err(ParseError::MissingField);
    }
    let n9 = rates[9].as_i64()?;
    Ok(format_rate(n0, n9))
}

fn parse_one_damage(j: &Json) -> (r: Result<Damage, ParseError>)
    ensures
        match r {
            Ok(d) => damage_of(*j) == Ok::<DamageView, ParseError>(d@),
            Err(e) => damage_of(*j) == Err::<DamageView, ParseError>(e),
        },
{
    let dam_obj = j.as_object()?;
    let rate_lv_arr = list_field(dam_obj, "RateLv")?;
    let rate_lv = parse_rate(rate_lv_arr)?;
    let element = int_field(dam_obj, "Element")?;
    let element_power = int_field(dam_obj, "ElementPower")?;
    let energy = int_field(dam_obj, "Energy")?;
    let hardness_lv = int_field(dam_obj, "HardnessLv")?;
    let related_property = text_field(dam_obj, "RelatedProperty")?.clone();
    let tough_lv = int_field(dam_obj, "ToughLv")?;
    let type_field = int_field(dam_obj, "Type")?;
    Ok(
        Damage {
            related_property,
            element,
            element_power,
            energy,
            hardness_lv,
            rate_lv,
            tough_lv,
            type_field,
        },
    )
}

/// Reads the kinds of damage of a levelled skill.
pub fn parse_damage(damage: &StrMap<Json>) -> (r: Result<StrMap<Damage>, ParseError>)
    ensures
        match r {
            Ok(m) => damages_of(damage.entries()) == Ok::<
                Seq<(Seq<char>, DamageView)>,
                ParseError,
            >(m@),
            Err(e) => damages_of(damage.entries()) == Err::<
                Seq<(Seq<char>, DamageView)>,
                ParseError,
            >(e),
        },
{
    let mut damage_map: StrMap<Damage> = StrMap::new();
    let ghost rs = damage.entries().map_values(|d: (String, Json)| keyed(d.0@, damage_of(d.1)));
    damage.ordered();
    proof {
        lemma_collected_none(rs);
        assert(damage_map@ =~= Seq::empty());
    }
    let mut i: usize = 0;
    while i < damage.len()
        invariant
            0 <= i <= damage.entries().len(),
            rs == damage.entries().map_values(|d: (String, Json)| keyed(d.0@, damage_of(d.1))),
            ascending(damage.keys()),
            follows(damage_map.entries(), damage.entries(), i as int),
            collected(rs.take(i as int)) == Ok::<Seq<(Seq<char>, DamageView)>, ParseError>(
                damage_map@,
            ),
        decreases damage.entries().len() - i,
    {
        let key = damage.key_at(i);
        proof {
            lemma_collected_step(rs, i as int);
        }
        let damage_obj = match parse_one_damage(damage.value_at(i)) {
            Ok(d) => d,
            Err(e) => {
                proof {
                    lemma_collected_fails(rs, i + 1);
                }
                return Err(e);
            },
        };
        let ghost before = damage_map@;
        proof {
            if i > 0 {
                assert(damage.keys()[i - 1] == damage_map.entries().last().0@);
                assert(text_lt(damage.keys()[i - 1], damage.keys()[i as int]));
            }
        }
        damage_map.push_last(key.clone(), damage_obj);
        assert(damage_map@ =~= before.push((key@, damage_obj@)));
        i = i + 1;
    }
    assert(rs.take(rs.len() as int) == rs);
    Ok(damage_map)
}

/// What the cost lists of a levelled skill add up to: every list is
/// added up by itself, and the totals of the lists are added together.
pub open spec fn skill_costs(lists: Seq<(String, Json)>) -> Result<Map<i64, i64>, ParseError>
    decreases lists.len(),
{
    if lists.len() == 0 {
        Ok(Map::empty())
    } else {
        match skill_costs(lists.drop_last()) {
            Err(e) => Err(e),
            Ok(acc) => match as_list(lists.last().1) {
                Err(e) => Err(e),
                Ok(items) => match consumed(items) {
                    Err(e) => Err(e),
                    Ok(more) => if clash(acc, more) {
                        Err(ParseError::QuantityOverflow)
                    } else {
                        Ok(merged(acc, more))
                    },
                },
            },
        }
    }
}

/// What `skill_costs` gives for one list more.
pub proof fn lemma_skill_costs_step(lists: Seq<(String, Json)>, n: int)
    requires
        0 <= n < lists.len(),
    ensures
        skill_costs(lists.take(n + 1)) == match skill_costs(lists.take(n)) {
            Err(e) => Err::<Map<i64, i64>, ParseError>(e),
            Ok(acc) => match as_list(lists[n].1) {
                Err(e) => Err(e),
                Ok(items) => match consumed(items) {
                    Err(e) => Err(e),
                    Ok(more) => if clash(acc, more) {
                        Err(ParseError::QuantityOverflow)
                    } else {
                        Ok(merged(acc, more))
                    },
                },
            },
        },
{
    assert(lists.take(n + 1).drop_last() == lists.take(n));
    assert(lists.take(n + 1).last() == lists[n]);
}

/// A list that cannot be added up fails all the lists.
pub proof fn lemma_skill_costs_fails(lists: Seq<(String, Json)>, n: int)
    requires
        0 <= n <= lists.len(),
        skill_costs(lists.take(n)) is Err,
    ensures
        skill_costs(lists) == skill_costs(lists.take(n)),
    decreases lists.len() - n,
{
    if n < lists.len() {
        lemma_skill_costs_step(lists, n);
        lemma_skill_costs_fails(lists, n + 1);
    } else {
        assert(lists.take(n) == lists);
    }
}

/// Adds up the cost lists of a levelled skill.
pub fn parse_consume_map(consumes: &StrMap<Json>) -> (r: Result<BTreeMap<i64, i64>, ParseError>)
    ensures
        match r {
            Ok(m) => skill_costs(consumes.entries()) == Ok::<Map<i64, i64>, ParseError>(m@),
            Err(e) => skill_costs(consumes.entries()) == Err::<Map<i64, i64>, ParseError>(e),
        },
{
    let mut total_costs_map: BTreeMap<i64, i64> = BTreeMap::new();
    assert(consumes.entries().take(0).len() == 0);
    let mut i: usize = 0;
    while i < consumes.len()
        invariant
            0 <= i <= consumes.entries().len(),
            skill_costs(consumes.entries().take(i as int)) == Ok::<Map<i64, i64>, ParseError>(
                total_costs_map@,
            ),
        decreases consumes.entries().len() - i,
    {
        proof {
            lemma_skill_costs_step(consumes.entries(), i as int);
        }
        let cons_vec = match consumes.value_at(i).as_array() {
            Ok(v) => v,
            Err(e) => {
                proof {
                    lemma_skill_costs_fails(consumes.entries(), i + 1);
                }
                return Err(e);
            },
        };
        let array_cost = match consume_costs(cons_vec) {
            Ok(c) => c,
            Err(e) => {
                proof {
                    lemma_skill_costs_fails(consumes.entries(), i + 1);
                }
                return Err(e);
            },
        };
        total_costs_map = match merge_costs(total_costs_map, &array_cost) {
            Ok(m) => m,
            Err(e) => {
                proof {
                    lemma_skill_costs_fails(consumes.entries(), i + 1);
                }
                return Err(e);
            },
        };
        i = i + 1;
    }
    assert(consumes.entries().take(consumes.entries().len() as int) == consumes.entries());
    Ok(total_costs_map)
}

/// How many fields a skill must have to be a levelled one. A skill with
/// fewer fields is a simple one.
pub const LEVELLED_FIELDS: usize = 5;

/// Whether a skill with that many fields is a simple one.
pub open spec fn is_simple(fields: nat) -> bool {
    fields < LEVELLED_FIELDS
}

/// Whether a skill with that many fields is a simple one.
pub fn is_simple_skill(fields: usize) -> (r: bool)
    ensures
        r == is_simple(fields as nat),
{
    fields < LEVELLED_FIELDS
}

/// Where the kinds of skill part: a skill of four fields is a simple one,
/// a skill of five fields is a levelled one, and so it goes on to both
/// sides.
pub proof fn lemma_classification_boundary(fields: nat)
    ensures
        is_simple(4),
        !is_simple(5),
        fields <= 4 ==> is_simple(fields),
        fields >= 5 ==> !is_simple(fields),
{
}

/// What a levelled skill has beyond its name and description, and its
/// costs.
pub open spec fn levelled_of(
    skill: StrMap<Json>,
    name: Seq<char>,
    desc: Seq<char>,
) -> Result<(SkillVariantView, Map<i64, i64>), ParseError> {
    match need_text(skill, "Type"@) {
        Err(e) => Err(e),
        Ok(type_field) => match need_fields(skill, "Level"@) {
            Err(e) => Err(e),
            Ok(levels) => match levels_of(levels.entries()) {
                Err(e) => Err(e),
                Ok(level) => match need_fields(skill, "Consume"@) {
                    Err(e) => Err(e),
                    Ok(lists) => match skill_costs(lists.entries()) {
                        Err(e) => Err(e),
                        Ok(costs) => match need_fields(skill, "Damage"@) {
                            Err(e) => Err(e),
                            Ok(kinds) => match damages_of(kinds.entries()) {
                                Err(e) => Err(e),
                                Ok(damage) => Ok(
                                    (
                                        SkillVariantView::SkillL(
                                            SkillLargeView { name, desc, type_field, level, damage },
                                        ),
                                        costs,
                                    ),
                                ),
                            },
                        },
                    },
                },
            },
        },
    }
}

/// The skill that a raw skill record holds, and its costs. The record is
/// a simple skill where it has fewer than five fields, and a levelled one
/// else; a simple skill costs nothing.
pub open spec fn skill_of(skill: StrMap<Json>) -> Result<
    (SkillVariantView, Map<i64, i64>),
    ParseError,
> {
    match need_text(skill, "Name"@) {
        Err(e) => Err(e),
        Ok(name) => match need_text(skill, "Desc"@) {
            Err(e) => Err(e),
            Ok(desc) => match need_list(skill, "Param"@) {
                Err(e) => Err(e),
                Ok(param) => match skill_description(desc, param) {
                    Err(e) => Err(e),
                    Ok(text) => if is_simple(skill.entries().len()) {
                        Ok(
                            (
                                SkillVariantView::SkillS(SkillSmallView { name, desc: text }),
                                Map::empty(),
                            ),
                        )
                    } else {
                        levelled_of(skill, name, text)
                    },
                },
            },
        },
    }
}

/// Reads a raw skill record: tells by the number of its fields whether
/// the skill is simple or levelled, and reads it as that.
pub fn parse_skill(skill: &StrMap<Json>) -> (r: Result<
    (SkillVariant, BTreeMap<i64, i64>),
    ParseError,
>)
    ensures
        match r {
            Ok(p) => skill_of(*skill) == Ok::<(SkillVariantView, Map<i64, i64>), ParseError>(
                (p.0@, p.1@),
            ) && (p.0 is SkillS <==> is_simple(skill.entries().len())) && (p.0 is SkillL
                <==> !is_simple(skill.entries().len())),
            Err(e) => skill_of(*skill) == Err::<(SkillVariantView, Map<i64, i64>), ParseError>(e),
        },
{
    let is_small_skill: bool = is_simple_skill(skill.len());
    let name = text_field(skill, "Name")?.clone();
    let raw_desc = text_field(skill, "Desc")?;
    let param = list_field(skill, "Param")?;
    let desc = render_skill_description(raw_desc.as_str(), param)?;
    if is_small_skill {
        let parsed_skill = SkillSmall { name, desc };
        Ok((SkillVariant::SkillS(parsed_skill), BTreeMap::new()))
    } else {
        let type_field = text_field(skill, "Type")?.clone();
        let level = object_field(skill, "Level")?;
        let level_map = parse_level(level)?;
        let consumes = object_field(skill, "Consume")?;
        let consume = parse_consume_map(consumes)?;
        let damage_raw = object_field(skill, "Damage")?;
        let damage = parse_damage(damage_raw)?;
        let parsed_skill = SkillLarge { name, desc, type_field, level: level_map, damage };
        Ok((SkillVariant::SkillL(parsed_skill), consume))
    }
}

/// The costs of a node and of its skill together, by the names of their
/// resources.
pub open spec fn node_costs(
    catalog: Option<Json>,
    own: Map<i64, i64>,
    of_skill: Map<i64, i64>,
) -> Result<Seq<(Seq<char>, i64)>, ParseError> {
    if clash(own, of_skill) {
        Err(ParseError::QuantityOverflow)
    } else {
        named_costs(catalog, listing(merged(own, of_skill)))
    }
}

/// The node of a skill tree that `j` holds.
#[verifier::opaque]
pub open spec fn node_of(catalog: Option<Json>, j: Json) -> Result<SkillTreeView, ParseError> {
    match as_fields(j) {
        Err(e) => Err(e),
        Ok(f) => match need_list(f, "Consume"@) {
            Err(e) => Err(e),
            Ok(list) => match consumed(list) {
                Err(e) => Err(e),
                Ok(own) => match need_int(f, "Coordinate"@) {
                    Err(e) => Err(e),
                    Ok(coordinate) => match need_int(f, "NodeType"@) {
                        Err(e) => Err(e),
                        Ok(node_type) => match need_list(f, "ParentNodes"@) {
                            Err(e) => Err(e),
                            Ok(parents) => match int_list(parents) {
                                Err(e) => Err(e),
                                Ok(parent_nodes) => match need_int(f, "UnLockCondition"@) {
                                    Err(e) => Err(e),
                                    Ok(un_lock_condition) => match need_fields(f, "Skill"@) {
                                        Err(e) => Err(e),
                                        Ok(raw_skill) => match skill_of(raw_skill) {
                                            Err(e) => Err(e),
                                            Ok(parsed) => match node_costs(
                                                catalog,
                                                own,
                                                parsed.1,
                                            ) {
                                                Err(e) => Err(e),
                                                Ok(consume) => Ok(
                                                    SkillTreeView {
                                                        parent_nodes,
                                                        node_type,
                                                        consume,
                                                        coordinate,
                                                        un_lock_condition,
                                                        skill: parsed.0,
                                                    },
                                                ),
                                            },
                                        },
                                    },
                                },
                            },
                        },
                    },
                },
            },
        },
    }
}

/// The nodes of a skill tree, node by node, in ascending order of their
/// keys.
pub open spec fn skill_trees(catalog: Option<Json>, trees: Seq<(String, Json)>) -> Result<
    Seq<(Seq<char>, SkillTreeView)>,
    ParseError,
> {
    collected(trees.map_values(|t: (String, Json)| keyed(t.0@, node_of(catalog, t.1))))
}

fn parse_node(item_map: &Option<Json>, j: &Json) -> (r: Result<SkillTree, ParseError>)
    ensures
        match r {
            Ok(t) => node_of(*item_map, *j) == Ok::<SkillTreeView, ParseError>(t@),
            Err(e) => node_of(*item_map, *j) == Err::<SkillTreeView, ParseError>(e),
        },
{
    reveal(node_of);
    let skilltree = j.as_object()?;
    let consume = list_field(skilltree, "Consume")?;
    let consume_map = consume_costs(consume)?;
    let coord = int_field(skilltree, "Coordinate")?;
    let node = int_field(skilltree, "NodeType")?;
    let parent = list_field(skilltree, "ParentNodes")?;
    let parent_vec = parse_ints(parent)?;
    let unlock = int_field(skilltree, "UnLockCondition")?;
    let skill = object_field(skilltree, "Skill")?;
    let (new_skill, skill_consume_map) = parse_skill(skill)?;
    let consume_map = merge_costs(consume_map, &skill_consume_map)?;
    let named_map = match_item_names(item_map, &consume_map)?;
    Ok(
        SkillTree {
            parent_nodes: parent_vec,
            node_type: node,
            consume: named_map,
            coordinate: coord,
            un_lock_condition: unlock,
            skill: new_skill,
        },
    )
}

/// Reads the nodes of a skill tree: for every node its place in the tree,
/// its skill, and the costs of the node and of the skill together, by
/// the names that the catalog gives to the resources.
pub fn parse_character_skilltrees(skilltrees: &StrMap<Json>, item_map: &Option<Json>) -> (r:
    Result<StrMap<SkillTree>, ParseError>)
    ensures
        match r {
            Ok(m) => skill_trees(*item_map, skilltrees.entries()) == Ok::<
                Seq<(Seq<char>, SkillTreeView)>,
                ParseError,
            >(m@) && ascending(m.keys()),
            Err(e) => skill_trees(*item_map, skilltrees.entries()) == Err::<
                Seq<(Seq<char>, SkillTreeView)>,
                ParseError,
            >(e),
        },
{
    let mut skill_map: StrMap<SkillTree> = StrMap::new();
    let ghost rs = skilltrees.entries().map_values(
        |t: (String, Json)| keyed(t.0@, node_of(*item_map, t.1)),
    );
    skilltrees.ordered();
    proof {
        lemma_collected_none(rs);
        assert(skill_map@ =~= Seq::empty());
    }
    let mut i: usize = 0;
    while i < skilltrees.len()
        invariant
            0 <= i <= skilltrees.entries().len(),
            rs == skilltrees.entries().map_values(
                |t: (String, Json)| keyed(t.0@, node_of(*item_map, t.1)),
            ),
            ascending(skilltrees.keys()),
            follows(skill_map.entries(), skilltrees.entries(), i as int),
            collected(rs.take(i as int)) == Ok::<Seq<(Seq<char>, SkillTreeView)>, ParseError>(
                skill_map@,
            ),
        decreases skilltrees.entries().len() - i,
    {
        let main_key = skilltrees.key_at(i);
        proof {
            lemma_collected_step(rs, i as int);
        }
        let new_skill_tree = match parse_node(item_map, skilltrees.value_at(i)) {
            Ok(t) => t,
            Err(e) => {
                proof {
                    lemma_collected_fails(rs, i + 1);
                }
                return Err(e);
            },
        };
        let ghost before = skill_map@;
        proof {
            if i > 0 {
                assert(skilltrees.keys()[i - 1] == skill_map.entries().last().0@);
                assert(text_lt(skilltrees.keys()[i - 1], skilltrees.keys()[i as int]));
            }
        }
        skill_map.push_last(main_key.clone(), new_skill_tree);
        assert(skill_map@ =~= before.push((main_key@, new_skill_tree@)));
        i = i + 1;
    }
    assert(rs.take(rs.len() as int) == rs);
    skill_map.ordered();
    Ok(skill_map)
}

/// The canonical record of a raw record: the tags, the skill tree, the
/// chains and the ascension tiers, read in that order, beside what is
/// taken over as it is.
#[verifier::opaque]
pub open spec fn character_of(raw: Character, catalog: Option<Json>) -> Result<
    ParsedCharacterView,
    ParseError,
> {
    match parsed_tags(raw.tag) {
        Err(e) => Err(e),
        Ok(tags) => match skill_trees(catalog, raw.skill_trees.entries()) {
            Err(e) => Err(e),
            Ok(skills) => match ascension_tiers(catalog, raw.ascensions.entries()) {
                Err(e) => Err(e),
                Ok(ascensions) => Ok(
                    ParsedCharacterView {
                        id: raw.id,
                        name: raw.name@,
                        rarity: raw.rarity,
                        weapon: raw.weapon,
                        element: raw.element,
                        tags,
                        stats: raw.stats,
                        skills,
                        chains: parsed_chains(raw.chains.entries()),
                        ascensions,
                    },
                ),
            },
        },
    }
}

/// Builds the canonical record of a character from its raw record and
/// the catalog of resource names, if there is one.
pub fn parse_character(raw: &Character, item_map: &Option<Json>) -> (r: Result<
    ParsedCharacter,
    ParseError,
>)
    ensures
        match r {
            Ok(c) => character_of(*raw, *item_map) == Ok::<ParsedCharacterView, ParseError>(c@),
            Err(e) => character_of(*raw, *item_map) == Err::<ParsedCharacterView, ParseError>(e),
        },
{
    reveal(character_of);
    let tags = parse_character_tag(&raw.tag)?;
    let new_tree = parse_character_skilltrees(&raw.skill_trees, item_map)?;
    let chains = parse_chains(&raw.chains);
    let new_ascensions = parse_ascensions(item_map, &raw.ascensions)?;
    Ok(
        ParsedCharacter {
            id: raw.id,
            name: raw.name.clone(),
            rarity: raw.rarity,
            weapon: raw.weapon,
            element: raw.element,
            tags,
            stats: raw.stats,
            skills: new_tree,
            chains,
            ascensions: new_ascensions,
        },
    )
}

} // verus!
