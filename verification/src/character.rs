//! The raw record of a character, as far as its shape is fixed.

use vstd::prelude::*;
use crate::json::Json;
use crate::parsed_character::ParsedStats;
use crate::str_map::StrMap;

verus! {

/// The raw record of a character. The tags and the nodes of the skill
/// tree are loosely typed; the stats are those of the highest level,
/// rounded to whole numbers.
#[derive(Debug, PartialEq)]
pub struct Character {
    pub id: i64,
    pub rarity: i64,
    pub weapon: i64,
    pub element: i64,
    pub tag: Json,
    pub name: String,
    pub stats: ParsedStats,
    pub skill_trees: StrMap<Json>,
    pub chains: StrMap<ChainDescription>,
    pub ascensions: StrMap<Vec<Consume>>,
}

/// One entry of a cost list: how much of which resource.
#[derive(Default, Debug, Clone, Copy, PartialEq, Eq)]
pub struct Consume {
    pub key: i64,
    pub value: i64,
}

/// The sixteen nodes of a skill tree, by their place.
#[derive(Debug, PartialEq)]
pub struct SkillTrees {
    pub n1: Json,
    pub n2: Json,
    pub n3: Json,
    pub n4: Json,
    pub n5: Json,
    pub n6: Json,
    pub n7: Json,
    pub n8: Json,
    pub n9: Json,
    pub n10: Json,
    pub n11: Json,
    pub n12: Json,
    pub n13: Json,
    pub n14: Json,
    pub n15: Json,
    pub n16: Json,
}

/// One node of a skill tree.
#[derive(Debug, PartialEq)]
pub struct SkillBreakdown {
    pub parent_nodes: Vec<i64>,
    pub node_type: i64,
    pub coordinate: i64,
    pub un_lock_condition: i64,
    pub consume: Json,
    pub skill: SkillRaw,
}

/// The skill of a node, with what only a levelled skill has left open.
#[derive(Debug, PartialEq)]
pub struct SkillRaw {
    pub name: String,
    pub desc: String,
    pub param: Vec<String>,
    pub type_field: Option<String>,
    pub level: Option<Json>,
    pub consume: Vec<Json>,
    pub damage: Option<Json>,
}

/// A skill that has a name and a description only.
#[derive(Default, Debug, Clone, PartialEq)]
pub struct Skill_ {
    pub name: String,
    pub desc: String,
    pub param: Vec<String>,
}

/// The six chains of a character, by their place.
#[derive(Default, Debug, Clone, PartialEq)]
pub struct Chains {
    pub n1: ChainDescription,
    pub n2: ChainDescription,
    pub n3: ChainDescription,
    pub n4: ChainDescription,
    pub n5: ChainDescription,
    pub n6: ChainDescription,
}

/// What unlocking one chain gives: a name, and a description template
/// with the parameters to fill it in.
#[derive(Default, Debug, Clone, PartialEq)]
pub struct ChainDescription {
    pub name: String,
    pub desc: String,
    pub param: Vec<String>,
}

/// The cost lists of the six ascension tiers, by their place.
#[derive(Default, Debug, Clone, PartialEq)]
pub struct Ascensions {
    pub n1: Vec<Consume>,
    pub n2: Vec<Consume>,
    pub n3: Vec<Consume>,
    pub n4: Vec<Consume>,
    pub n5: Vec<Consume>,
    pub n6: Vec<Consume>,
}

} // verus!
