//! The canonical record of a character, and what it holds as plain values.
//!
//! Every type has a view, which is what two records are compared by:
//! strings by their text, lists in order, and mappings by their entries
//! in ascending order of the keys, which is fixed by what a mapping holds.

use vstd::prelude::*;
use crate::str_map::{Content, StrMap};

verus! {

/// The views of the items of a list, in order.
pub open spec fn views<T: View>(items: Seq<T>) -> Seq<T::V> {
    items.map_values(|t: T| t@)
}

/// Whether two lists of numbers are the same.
pub fn same_numbers(a: &Vec<i64>, b: &Vec<i64>) -> (r: bool)
    ensures
        r == (a@ == b@),
{
    let r = same_all(a, b);
    assert(views(a@) =~= a@);
    assert(views(b@) =~= b@);
    r
}

/// Whether two lists hold the same, item by item.
pub fn same_all<T: Content>(a: &Vec<T>, b: &Vec<T>) -> (r: bool)
    ensures
        r == (views(a@) == views(b@)),
{
    if a.len() != b.len() {
        assert(views(a@).len() != views(b@).len());
        return false;
    }
    let mut i: usize = 0;
    while i < a.len()
        invariant
            0 <= i <= a.len(),
            a.len() == b.len(),
            forall|j: int| 0 <= j < i ==> (#[trigger] a@[j])@ == b@[j]@,
        decreases a.len() - i,
    {
        if !a[i].same(&b[i]) {
            assert(views(a@)[i as int] != views(b@)[i as int]);
            return false;
        }
        i = i + 1;
    }
    assert(views(a@) =~= views(b@));
    true
}

/// The base stats of a character, as whole numbers.
#[derive(Default, Debug, Clone, Copy, PartialEq, Eq)]
pub struct ParsedStats {
    pub life: i64,
    pub atk: i64,
    pub def: i64,
}

impl View for ParsedStats {
    type V = ParsedStats;

    open spec fn view(&self) -> ParsedStats {
        *self
    }
}

impl Content for ParsedStats {
    fn same(&self, other: &ParsedStats) -> (r: bool) {
        self.life == other.life && self.atk == other.atk && self.def == other.def
    }
}

/// A tag of a character.
#[derive(Default, Debug, Clone, PartialEq)]
pub struct ParsedTag {
    pub name: String,
    pub desc: String,
}

/// What a `ParsedTag` holds.
pub struct ParsedTagView {
    pub name: Seq<char>,
    pub desc: Seq<char>,
}

impl View for ParsedTag {
    type V = ParsedTagView;

    open spec fn view(&self) -> ParsedTagView {
        ParsedTagView {
            name: self.name@,
            desc: self.desc@,
        }
    }
}

impl Content for ParsedTag {
    fn same(&self, other: &ParsedTag) -> (r: bool) {
        self.name.same(&other.name)
            && self.desc.same(&other.desc)
    }
}

/// A skill that has a name and a description only. The description is
/// rendered.
#[derive(Default, Debug, Clone, PartialEq)]
pub struct SkillSmall {
    pub name: String,
    pub desc: String,
}

/// What a `SkillSmall` holds.
pub struct SkillSmallView {
    pub name: Seq<char>,
    pub desc: Seq<char>,
}

impl View for SkillSmall {
    type V = SkillSmallView;

    open spec fn view(&self) -> SkillSmallView {
        SkillSmallView {
            name: self.name@,
            desc: self.desc@,
        }
    }
}

impl Content for SkillSmall {
    fn same(&self, other: &SkillSmall) -> (r: bool) {
        self.name.same(&other.name)
            && self.desc.same(&other.desc)
    }
}

/// One level of a levelled skill: its name, and its format with the span of
/// the level's parameters filled in.
#[derive(Default, Debug, Clone, PartialEq)]
pub struct Level {
    pub format: String,
    pub name: String,
}

/// What a `Level` holds.
pub struct LevelView {
    pub format: Seq<char>,
    pub name: Seq<char>,
}

impl View for Level {
    type V = LevelView;

    open spec fn view(&self) -> LevelView {
        LevelView {
            format: self.format@,
            name: self.name@,
        }
    }
}

impl Content for Level {
    fn same(&self, other: &Level) -> (r: bool) {
        self.format.same(&other.format)
            && self.name.same(&other.name)
    }
}

/// One kind of damage of a levelled skill. The rate is the span of the raw
/// rates, in hundredths, as a text.
#[derive(Default, Debug, Clone, PartialEq)]
pub struct Damage {
    pub related_property: String,
    pub element: i64,
    pub element_power: i64,
    pub energy: i64,
    pub hardness_lv: i64,
    pub rate_lv: String,
    pub tough_lv: i64,
    pub type_field: i64,
}

/// What a `Damage` holds.
pub struct DamageView {
    pub related_property: Seq<char>,
    pub element: i64,
    pub element_power: i64,
    pub energy: i64,
    pub hardness_lv: i64,
    pub rate_lv: Seq<char>,
    pub tough_lv: i64,
    pub type_field: i64,
}

impl View for Damage {
    type V = DamageView;

    open spec fn view(&self) -> DamageView {
        DamageView {
            related_property: self.related_property@,
            element: self.element,
            element_power: self.element_power,
            energy: self.energy,
            hardness_lv: self.hardness_lv,
            rate_lv: self.rate_lv@,
            tough_lv: self.tough_lv,
            type_field: self.type_field,
        }
    }
}

impl Content for Damage {
    fn same(&self, other: &Damage) -> (r: bool) {
        self.related_property.same(&other.related_property)
            && self.element == other.element
            && self.element_power == other.element_power
            && self.energy == other.energy
            && self.hardness_lv == other.hardness_lv
            && self.rate_lv.same(&other.rate_lv)
            && self.tough_lv == other.tough_lv
            && self.type_field == other.type_field
    }
}

/// What unlocking one chain gives, with the description rendered.
#[derive(Default, Debug, Clone, PartialEq)]
pub struct ParsedChainDescription {
    pub name: String,
    pub desc: String,
}

/// What a `ParsedChainDescription` holds.
pub struct ParsedChainDescriptionView {
    pub name: Seq<char>,
    pub desc: Seq<char>,
}

impl View for ParsedChainDescription {
    type V = ParsedChainDescriptionView;

    open spec fn view(&self) -> ParsedChainDescriptionView {
        ParsedChainDescriptionView {
            name: self.name@,
            desc: self.desc@,
        }
    }
}

impl Content for ParsedChainDescription {
    fn same(&self, other: &ParsedChainDescription) -> (r: bool) {
        self.name.same(&other.name)
            && self.desc.same(&other.desc)
    }
}

/// A levelled skill.
#[derive(Debug, PartialEq)]
pub struct SkillLarge {
    pub name: String,
    pub desc: String,
    pub type_field: String,
    pub level: StrMap<Level>,
    pub damage: StrMap<Damage>,
}

/// What a `SkillLarge` holds.
pub struct SkillLargeView {
    pub name: Seq<char>,
    pub desc: Seq<char>,
    pub type_field: Seq<char>,
    pub level: Seq<(Seq<char>, LevelView)>,
    pub damage: Seq<(Seq<char>, DamageView)>,
}

impl View for SkillLarge {
    type V = SkillLargeView;

    open spec fn view(&self) -> SkillLargeView {
        SkillLargeView {
            name: self.name@,
            desc: self.desc@,
            type_field: self.type_field@,
            level: self.level@,
            damage: self.damage@,
        }
    }
}

impl Content for SkillLarge {
    fn same(&self, other: &SkillLarge) -> (r: bool) {
        self.name.same(&other.name)
            && self.desc.same(&other.desc)
            && self.type_field.same(&other.type_field)
            && self.level.same(&other.level)
            && self.damage.same(&other.damage)
    }
}

/// The skill of a node: simple or levelled.
#[derive(Default, Debug, PartialEq)]
pub enum SkillVariant {
    SkillS(SkillSmall),
    SkillL(SkillLarge),
    /// No skill; what a record has before one is put in.
    #[default]
    Unset,
}

/// What a `SkillVariant` holds.
pub enum SkillVariantView {
    SkillS(SkillSmallView),
    SkillL(SkillLargeView),
    Unset,
}

impl View for SkillVariant {
    type V = SkillVariantView;

    open spec fn view(&self) -> SkillVariantView {
        match *self {
            SkillVariant::SkillS(s) => SkillVariantView::SkillS(s@),
            SkillVariant::SkillL(l) => SkillVariantView::SkillL(l@),
            SkillVariant::Unset => SkillVariantView::Unset,
        }
    }
}

impl Content for SkillVariant {
    fn same(&self, other: &SkillVariant) -> (r: bool) {
        match (self, other) {
            (SkillVariant::SkillS(a), SkillVariant::SkillS(b)) => a.same(b),
            (SkillVariant::SkillL(a), SkillVariant::SkillL(b)) => a.same(b),
            (SkillVariant::Unset, SkillVariant::Unset) => true,
            _ => false,
        }
    }
}

/// One node of a skill tree, with its cost by the names of the resources.
#[derive(Debug, PartialEq)]
pub struct SkillTree {
    pub parent_nodes: Vec<i64>,
    pub node_type: i64,
    pub consume: StrMap<i64>,
    pub coordinate: i64,
    pub un_lock_condition: i64,
    pub skill: SkillVariant,
}

/// What a `SkillTree` holds.
pub struct SkillTreeView {
    pub parent_nodes: Seq<i64>,
    pub node_type: i64,
    pub consume: Seq<(Seq<char>, i64)>,
    pub coordinate: i64,
    pub un_lock_condition: i64,
    pub skill: SkillVariantView,
}

impl View for SkillTree {
    type V = SkillTreeView;

    open spec fn view(&self) -> SkillTreeView {
        SkillTreeView {
            parent_nodes: self.parent_nodes@,
            node_type: self.node_type,
            consume: self.consume@,
            coordinate: self.coordinate,
            un_lock_condition: self.un_lock_condition,
            skill: self.skill@,
        }
    }
}

impl Content for SkillTree {
    fn same(&self, other: &SkillTree) -> (r: bool) {
        same_numbers(&self.parent_nodes, &other.parent_nodes)
            && self.node_type == other.node_type
            && self.consume.same(&other.consume)
            && self.coordinate == other.coordinate
            && self.un_lock_condition == other.un_lock_condition
            && self.skill.same(&other.skill)
    }
}

/// The canonical record of a character.
#[derive(Debug, PartialEq)]
pub struct ParsedCharacter {
    pub id: i64,
    pub name: String,
    pub rarity: i64,
    pub weapon: i64,
    pub element: i64,
    pub tags: Vec<ParsedTag>,
    pub stats: ParsedStats,
    pub skills: StrMap<SkillTree>,
    pub chains: StrMap<ParsedChainDescription>,
    pub ascensions: StrMap<StrMap<i64>>,
}

/// What a `ParsedCharacter` holds.
pub struct ParsedCharacterView {
    pub id: i64,
    pub name: Seq<char>,
    pub rarity: i64,
    pub weapon: i64,
    pub element: i64,
    pub tags: Seq<ParsedTagView>,
    pub stats: ParsedStats,
    pub skills: Seq<(Seq<char>, SkillTreeView)>,
    pub chains: Seq<(Seq<char>, ParsedChainDescriptionView)>,
    pub ascensions: Seq<(Seq<char>, Seq<(Seq<char>, i64)>)>,
}

impl View for ParsedCharacter {
    type V = ParsedCharacterView;

    open spec fn view(&self) -> ParsedCharacterView {
        ParsedCharacterView {
            id: self.id,
            name: self.name@,
            rarity: self.rarity,
            weapon: self.weapon,
            element: self.element,
            tags: views(self.tags@),
            stats: self.stats@,
            skills: self.skills@,
            chains: self.chains@,
            ascensions: self.ascensions@,
        }
    }
}

impl Content for ParsedCharacter {
    fn same(&self, other: &ParsedCharacter) -> (r: bool) {
        self.id == other.id
            && self.name.same(&other.name)
            && self.rarity == other.rarity
            && self.weapon == other.weapon
            && self.element == other.element
            && same_all(&self.tags, &other.tags)
            && self.stats.same(&other.stats)
            && self.skills.same(&other.skills)
            && self.chains.same(&other.chains)
            && self.ascensions.same(&other.ascensions)
    }
}

} // verus!
