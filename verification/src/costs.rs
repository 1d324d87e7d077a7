//! Resource costs: how much of which resource, by the resource's number.

use vstd::prelude::*;
use vstd::std_specs::btree::{
    axiom_increasing_seq_meaning,
    axiom_key_obeys_cmp_spec_meaning,
    axiom_spec_btree_map_iter,
    increasing_seq,
    key_obeys_cmp_spec,
    spec_btree_map_iter,
};
use vstd::std_specs::cmp::OrdSpec;
use vstd::std_specs::iter::IteratorSpec;
use std::collections::BTreeMap;
use crate::character::Consume;
use crate::json::ParseError;

verus! {

/// How much of the resource `key` the entries ask for, all together.
pub open spec fn total_for(entries: Seq<Consume>, key: i64) -> int
    decreases entries.len(),
{
    if entries.len() == 0 {
        0
    } else {
        total_for(entries.drop_last(), key) + if entries.last().key == key {
            entries.last().value as int
        } else {
            0
        }
    }
}

/// Whether some entry is about the resource `key`.
pub open spec fn mentions(entries: Seq<Consume>, key: i64) -> bool {
    exists|i: int| 0 <= i < entries.len() && (#[trigger] entries[i]).key == key
}

/// Whether some entry has a negative quantity.
pub open spec fn any_negative(entries: Seq<Consume>) -> bool {
    exists|i: int| 0 <= i < entries.len() && (#[trigger] entries[i]).value < 0
}

/// Whether the entries ask for more of some resource than 64 bits hold.
pub open spec fn overflows(entries: Seq<Consume>) -> bool {
    exists|k: i64| #[trigger] total_for(entries, k) > i64::MAX
}

/// The resources that the entries are about, each with its total.
pub open spec fn totals(entries: Seq<Consume>) -> Map<i64, i64> {
    Map::new(|k: i64| mentions(entries, k), |k: i64| total_for(entries, k) as i64)
}

/// What a list of entries adds up to: one total for each resource. A
/// negative quantity anywhere in the list is an error, and so is a total
/// that 64 bits do not hold.
pub open spec fn aggregated(entries: Seq<Consume>) -> Result<Map<i64, i64>, ParseError> {
    if any_negative(entries) {
        Err(ParseError::NegativeQuantity)
    } else if overflows(entries) {
        Err(ParseError::QuantityOverflow)
    } else {
        Ok(totals(entries))
    }
}

/// What two cost maps hold together: for each resource of either the sum
/// of what both hold of it.
pub open spec fn merged(a: Map<i64, i64>, b: Map<i64, i64>) -> Map<i64, i64> {
    Map::new(
        |k: i64| a.contains_key(k) || b.contains_key(k),
        |k: i64|
            if a.contains_key(k) && b.contains_key(k) {
                (a[k] + b[k]) as i64
            } else if a.contains_key(k) {
                a[k]
            } else {
                b[k]
            },
    )
}

/// Whether for some resource of both maps the sum does not fit in 64 bits.
pub open spec fn clash(a: Map<i64, i64>, b: Map<i64, i64>) -> bool {
    exists|k: i64|
        a.contains_key(k) && #[trigger] b.contains_key(k) && !(i64::MIN <= a[k] + b[k] <= i64::MAX)
}

/// A resource that no entry is about has the total zero.
pub proof fn lemma_total_unmentioned(entries: Seq<Consume>, key: i64)
    requires
        !mentions(entries, key),
    ensures
        total_for(entries, key) == 0,
    decreases entries.len(),
{
    if entries.len() > 0 {
        assert(entries[entries.len() - 1].key != key);
        assert forall|i: int| 0 <= i < entries.drop_last().len() implies (
        #[trigger] entries.drop_last()[i]).key != key by {
            assert(entries[i].key != key);
        }
        lemma_total_unmentioned(entries.drop_last(), key);
    }
}

/// Where no quantity is negative, a total only grows as the list goes on.
pub proof fn lemma_total_grows(entries: Seq<Consume>, n: int, key: i64)
    requires
        !any_negative(entries),
        0 <= n <= entries.len(),
    ensures
        0 <= total_for(entries.take(n), key) <= total_for(entries, key),
    decreases entries.len() - n,
{
    if n < entries.len() {
        lemma_total_grows(entries, n + 1, key);
        assert(entries.take(n + 1).drop_last() == entries.take(n));
        assert(entries.take(n + 1).last() == entries[n]);
        assert(entries[n].value >= 0);
        lemma_total_grows_base(entries.take(n), key);
    } else {
        assert(entries.take(n) == entries);
        lemma_total_grows_base(entries, key);
    }
}

proof fn lemma_total_grows_base(entries: Seq<Consume>, key: i64)
    requires
        forall|i: int| 0 <= i < entries.len() ==> (#[trigger] entries[i]).value >= 0,
    ensures
        0 <= total_for(entries, key),
    decreases entries.len(),
{
    if entries.len() > 0 {
        assert(entries[entries.len() - 1].value >= 0);
        assert forall|i: int| 0 <= i < entries.drop_last().len() implies (
        #[trigger] entries.drop_last()[i]).value >= 0 by {
            assert(entries[i].value >= 0);
        }
        lemma_total_grows_base(entries.drop_last(), key);
    }
}

/// Taking one entry out of a list takes its quantity out of the total of
/// its resource and leaves the other totals as they are.
pub proof fn lemma_total_remove(entries: Seq<Consume>, i: int, key: i64)
    requires
        0 <= i < entries.len(),
    ensures
        total_for(entries, key) == total_for(entries.remove(i), key) + if entries[i].key == key {
            entries[i].value as int
        } else {
            0
        },
    decreases entries.len(),
{
    if i == entries.len() - 1 {
        assert(entries.remove(i) == entries.drop_last());
    } else {
        lemma_total_remove(entries.drop_last(), i, key);
        assert(entries.remove(i).drop_last() == entries.drop_last().remove(i));
        assert(entries.remove(i).last() == entries.last());
    }
}

/// The totals do not depend on the order of the entries.
pub proof fn lemma_total_permuted(a: Seq<Consume>, b: Seq<Consume>, key: i64)
    requires
        a.to_multiset() == b.to_multiset(),
    ensures
        total_for(a, key) == total_for(b, key),
    decreases a.len(),
{
    a.to_multiset_ensures();
    b.to_multiset_ensures();
    if a.len() == 0 {
        assert(b.len() == 0);
    } else {
        let x = a.last();
        assert(a.contains(x));
        assert(b.to_multiset().count(x) > 0);
        assert(b.contains(x));
        let j = b.index_of(x);
        assert(a.drop_last() == a.remove(a.len() - 1));
        assert(a.drop_last().to_multiset() == b.remove(j).to_multiset());
        lemma_total_permuted(a.drop_last(), b.remove(j), key);
        lemma_total_remove(b, j, key);
    }
}

/// Aggregation is commutative: a list of entries and any rearrangement of
/// it add up to the same, be it a mapping or an error.
pub proof fn lemma_aggregate_commutes(a: Seq<Consume>, b: Seq<Consume>)
    requires
        a.to_multiset() == b.to_multiset(),
    ensures
        aggregated(a) == aggregated(b),
{
    a.to_multiset_ensures();
    b.to_multiset_ensures();
    assert forall|x: Consume| a.contains(x) <==> b.contains(x) by {
        assert(a.contains(x) <==> a.to_multiset().count(x) > 0);
        assert(b.contains(x) <==> b.to_multiset().count(x) > 0);
    }
    assert(any_negative(a) == any_negative(b)) by {
        if any_negative(a) {
            let i = choose|i: int| 0 <= i < a.len() && (#[trigger] a[i]).value < 0;
            assert(a.contains(a[i]));
            let j = b.index_of(a[i]);
            assert(b[j].value < 0);
        }
        if any_negative(b) {
            let i = choose|i: int| 0 <= i < b.len() && (#[trigger] b[i]).value < 0;
            assert(b.contains(b[i]));
            let j = a.index_of(b[i]);
            assert(a[j].value < 0);
        }
    }
    assert forall|k: i64| total_for(a, k) == total_for(b, k) by {
        lemma_total_permuted(a, b, k);
    }
    assert(overflows(a) == overflows(b)) by {
        if overflows(a) {
            let k = choose|k: i64| #[trigger] total_for(a, k) > i64::MAX;
            assert(total_for(b, k) > i64::MAX);
        }
        if overflows(b) {
            let k = choose|k: i64| #[trigger] total_for(b, k) > i64::MAX;
            assert(total_for(a, k) > i64::MAX);
        }
    }
    assert forall|k: i64| mentions(a, k) == mentions(b, k) by {
        if mentions(a, k) {
            let i = choose|i: int| 0 <= i < a.len() && (#[trigger] a[i]).key == k;
            assert(a.contains(a[i]));
            let j = b.index_of(a[i]);
            assert(b[j].key == k);
        }
        if mentions(b, k) {
            let i = choose|i: int| 0 <= i < b.len() && (#[trigger] b[i]).key == k;
            assert(b.contains(b[i]));
            let j = a.index_of(b[i]);
            assert(a[j].key == k);
        }
    }
    assert(totals(a) =~= totals(b));
}

/// The total of two lists one after the other is the sum of their totals.
pub proof fn lemma_total_concat(a: Seq<Consume>, b: Seq<Consume>, key: i64)
    ensures
        total_for(a + b, key) == total_for(a, key) + total_for(b, key),
    decreases b.len(),
{
    if b.len() == 0 {
        assert(a + b == a);
    } else {
        lemma_total_concat(a, b.drop_last(), key);
        assert((a + b).drop_last() == a + b.drop_last());
        assert((a + b).last() == b.last());
    }
}

/// Aggregation is associative: two lists added up each by itself, and
/// their totals added together, give what the two lists give as one.
pub proof fn lemma_aggregate_associates(a: Seq<Consume>, b: Seq<Consume>)
    requires
        aggregated(a) is Ok,
        aggregated(b) is Ok,
    ensures
        aggregated(a + b) == if clash(totals(a), totals(b)) {
            Err::<Map<i64, i64>, ParseError>(ParseError::QuantityOverflow)
        } else {
            Ok(merged(totals(a), totals(b)))
        },
{
    let all = a + b;
    assert(!any_negative(all)) by {
        if any_negative(all) {
            let i = choose|i: int| 0 <= i < all.len() && (#[trigger] all[i]).value < 0;
            if i < a.len() {
                assert(a[i].value < 0);
            } else {
                assert(b[i - a.len()].value < 0);
            }
        }
    }
    assert forall|k: i64| mentions(all, k) == (mentions(a, k) || mentions(b, k)) by {
        if mentions(a, k) {
            let i = choose|i: int| 0 <= i < a.len() && (#[trigger] a[i]).key == k;
            assert(all[i].key == k);
        }
        if mentions(b, k) {
            let i = choose|i: int| 0 <= i < b.len() && (#[trigger] b[i]).key == k;
            assert(all[i + a.len()].key == k);
        }
        if mentions(all, k) {
            let i = choose|i: int| 0 <= i < all.len() && (#[trigger] all[i]).key == k;
            if i < a.len() {
                assert(a[i].key == k);
            } else {
                assert(b[i - a.len()].key == k);
            }
        }
    }
    assert forall|k: i64|
        #[trigger] total_for(all, k) == total_for(a, k) + total_for(b, k) && 0 <= total_for(a, k)
            <= i64::MAX && 0 <= total_for(b, k) <= i64::MAX by {
        lemma_total_concat(a, b, k);
        lemma_total_grows(a, 0, k);
        lemma_total_grows(b, 0, k);
        assert(total_for(a.take(0), k) == 0);
        assert(total_for(b.take(0), k) == 0);
        assert(total_for(a, k) <= i64::MAX);
        assert(total_for(b, k) <= i64::MAX);
    }
    assert(overflows(all) == clash(totals(a), totals(b))) by {
        if overflows(all) {
            let k = choose|k: i64| #[trigger] total_for(all, k) > i64::MAX;
            assert(total_for(all, k) == total_for(a, k) + total_for(b, k));
            if !mentions(a, k) {
                lemma_total_unmentioned(a, k);
            }
            if !mentions(b, k) {
                lemma_total_unmentioned(b, k);
            }
            assert(totals(b).contains_key(k));
        }
        if clash(totals(a), totals(b)) {
            let k = choose|k: i64|
                totals(a).contains_key(k) && #[trigger] totals(b).contains_key(k) && !(i64::MIN
                    <= totals(a)[k] + totals(b)[k] <= i64::MAX);
            assert(total_for(all, k) == total_for(a, k) + total_for(b, k));
            assert(total_for(all, k) > i64::MAX);
        }
    }
    if !clash(totals(a), totals(b)) {
        assert forall|k: i64| mentions(all, k) implies #[trigger] totals(all)[k] == merged(
            totals(a),
            totals(b),
        )[k] by {
            assert(total_for(all, k) == total_for(a, k) + total_for(b, k));
            if !mentions(a, k) {
                lemma_total_unmentioned(a, k);
            }
            if !mentions(b, k) {
                lemma_total_unmentioned(b, k);
            }
        }
        assert(totals(all) =~= merged(totals(a), totals(b)));
    }
}

/// Adds `value` to what `map` holds under `key`, or puts it there.
pub fn add_or_update_map(map: &mut BTreeMap<i64, i64>, key: &i64, value: &i64)
    requires
        old(map)@.contains_key(*key) ==> i64::MIN <= old(map)@[*key] + *value <= i64::MAX,
    ensures
        final(map)@ == old(map)@.insert(
            *key,
            if old(map)@.contains_key(*key) {
                (old(map)@[*key] + *value) as i64
            } else {
                *value
            },
        ),
{
    match map.get(key) {
        Some(val) => {
            let total: i64 = *val + *value;
            map.insert(*key, total);
        },
        None => {
            map.insert(*key, *value);
        },
    }
}

/// Adds up a list of cost entries, resource by resource.
pub fn aggregate(entries: &Vec<Consume>) -> (r: Result<BTreeMap<i64, i64>, ParseError>)
    ensures
        match r {
            Ok(m) => aggregated(entries@) == Ok::<Map<i64, i64>, ParseError>(m@),
            Err(e) => aggregated(entries@) == Err::<Map<i64, i64>, ParseError>(e),
        },
{
    let mut i: usize = 0;
    while i < entries.len()
        invariant
            0 <= i <= entries.len(),
            forall|j: int| 0 <= j < i ==> (#[trigger] entries@[j]).value >= 0,
        decreases entries.len() - i,
    {
        if entries[i].value < 0 {
            assert(entries@[i as int].value < 0);
            return Err(ParseError::NegativeQuantity);
        }
        i = i + 1;
    }
    assert(!any_negative(entries@));
    let mut map: BTreeMap<i64, i64> = BTreeMap::new();
    let mut i: usize = 0;
    assert(totals(entries@.take(0)) =~= Map::<i64, i64>::empty());
    while i < entries.len()
        invariant
            0 <= i <= entries.len(),
            !any_negative(entries@),
            map@ == totals(entries@.take(i as int)),
            forall|k: i64| 0 <= #[trigger] total_for(entries@.take(i as int), k) <= i64::MAX,
        decreases entries.len() - i,
    {
        let e: Consume = entries[i];
        let ghost before = entries@.take(i as int);
        let ghost after = entries@.take(i + 1);
        proof {
            assert(after.drop_last() == before);
            assert(after.last() == e);
            assert(e.value >= 0);
            assert(0 <= total_for(before, e.key) <= i64::MAX);
            if !mentions(before, e.key) {
                lemma_total_unmentioned(before, e.key);
            }
        }
        let held: i64 = match map.get(&e.key) {
            Some(v) => *v,
            None => 0,
        };
        assert(held == total_for(before, e.key));
        if held > i64::MAX - e.value {
            proof {
                lemma_total_grows(entries@, i + 1, e.key);
                assert(total_for(entries@, e.key) > i64::MAX);
            }
            return Err(ParseError::QuantityOverflow);
        }
        add_or_update_map(&mut map, &e.key, &e.value);
        proof {
            assert forall|k: i64| mentions(after, k) == (mentions(before, k) || k == e.key) by {
                if mentions(before, k) {
                    let j = choose|j: int| 0 <= j < before.len() && (#[trigger] before[j]).key == k;
                    assert(after[j].key == k);
                }
                if k == e.key {
                    assert(after[i as int].key == k);
                }
                if mentions(after, k) && k != e.key {
                    let j = choose|j: int| 0 <= j < after.len() && (#[trigger] after[j]).key == k;
                    assert(before[j].key == k);
                }
            }
            assert forall|k: i64| 0 <= #[trigger] total_for(after, k) <= i64::MAX by {
                assert(0 <= total_for(before, k) <= i64::MAX);
            }
            assert(map@ =~= totals(after));
        }
        i = i + 1;
    }
    proof {
        assert(entries@.take(entries.len() as int) == entries@);
        assert(!overflows(entries@));
    }
    Ok(map)
}

/// Adds what `more` holds to `acc`, resource by resource.
pub fn merge_costs(acc: BTreeMap<i64, i64>, more: &BTreeMap<i64, i64>) -> (r: Result<
    BTreeMap<i64, i64>,
    ParseError,
>)
    ensures
        match r {
            Ok(m) => !clash(acc@, more@) && m@ == merged(acc@, more@),
            Err(e) => clash(acc@, more@) && e == ParseError::QuantityOverflow,
        },
{
    let list: Vec<Consume> = entries_of(more);
    let mut out: BTreeMap<i64, i64> = acc;
    let mut i: usize = 0;
    while i < list.len()
        invariant
            0 <= i <= list.len(),
            lists(list@, more@),
            forall|k: i64| #[trigger]
                out@.contains_key(k) <==> acc@.contains_key(k) || exists|j: int|
                    0 <= j < i && (#[trigger] list@[j]).key == k,
            forall|j: int|
                0 <= j < i ==> out@[(#[trigger] list@[j]).key] == merged(acc@, more@)[list@[j].key],
            forall|j: int|
                0 <= j < i ==> !(acc@.contains_key((#[trigger] list@[j]).key) && !(i64::MIN <= acc@[list@[j].key]
                    + more@[list@[j].key] <= i64::MAX)),
            forall|k: i64|
                out@.contains_key(k) && !(exists|j: int| 0 <= j < i && (#[trigger] list@[j]).key == k)
                    ==> #[trigger] out@[k] == acc@[k],
        decreases list.len() - i,
    {
        let key: i64 = list[i].key;
        let value: i64 = list[i].value;
        proof {
            assert(more@.contains_key(list@[i as int].key) && more@[key] == value);
            assert(!(exists|j: int| 0 <= j < i && (#[trigger] list@[j]).key == key)) by {
                if exists|j: int| 0 <= j < i && (#[trigger] list@[j]).key == key {
                    let j = choose|j: int| 0 <= j < i && (#[trigger] list@[j]).key == key;
                    assert(list@[j].key < list@[i as int].key);
                }
            }
        }
        let ghost prev = out@;
        match out.get(&key) {
            Some(held) => {
                match held.checked_add(value) {
                    Some(sum) => {
                        out.insert(key, sum);
                    },
                    None => {
                        assert(acc@.contains_key(key) && more@.contains_key(key));
                        return Err(ParseError::QuantityOverflow);
                    },
                }
            },
            None => {
                out.insert(key, value);
            },
        }
        proof {
            assert forall|k: i64| #[trigger]
                out@.contains_key(k) <==> acc@.contains_key(k) || exists|j: int|
                    0 <= j < i + 1 && (#[trigger] list@[j]).key == k by {
                if k == key {
                    assert(list@[i as int].key == k);
                } else {
                    if exists|j: int| 0 <= j < i + 1 && (#[trigger] list@[j]).key == k {
                        let j = choose|j: int| 0 <= j < i + 1 && (#[trigger] list@[j]).key == k;
                        assert(j < i);
                    }
                    if exists|j: int| 0 <= j < i && (#[trigger] list@[j]).key == k {
                        let j = choose|j: int| 0 <= j < i && (#[trigger] list@[j]).key == k;
                        assert(0 <= j < i + 1 && list@[j].key == k);
                    }
                }
            }
            assert forall|j: int| 0 <= j < i + 1 implies out@[(#[trigger] list@[j]).key] == merged(
                acc@,
                more@,
            )[list@[j].key] by {
                if j < i {
                    assert(list@[j].key < list@[i as int].key);
                    assert(prev[list@[j].key] == merged(acc@, more@)[list@[j].key]);
                }
            }
            assert forall|k: i64|
                out@.contains_key(k) && !(exists|j: int|
                    0 <= j < i + 1 && (#[trigger] list@[j]).key == k) implies #[trigger] out@[k]
                == acc@[k] by {
                assert(k != key) by {
                    if k == key {
                        assert(list@[i as int].key == k);
                    }
                }
                if exists|j: int| 0 <= j < i && (#[trigger] list@[j]).key == k {
                    let j = choose|j: int| 0 <= j < i && (#[trigger] list@[j]).key == k;
                    assert(0 <= j < i + 1 && list@[j].key == k);
                }
                assert(prev.contains_key(k));
            }
        }
        i = i + 1;
    }
    proof {
        assert(!clash(acc@, more@)) by {
            if clash(acc@, more@) {
                let k = choose|k: i64|
                    acc@.contains_key(k) && #[trigger] more@.contains_key(k) && !(i64::MIN <= acc@[k]
                        + more@[k] <= i64::MAX);
                let j = choose|j: int| 0 <= j < list@.len() && #[trigger] list@[j].key == k;
                assert(list@[j].key == k);
            }
        }
        assert forall|k: i64| #[trigger]
            out@.contains_key(k) <==> merged(acc@, more@).contains_key(k) by {
            if more@.contains_key(k) {
                let j = choose|j: int| 0 <= j < list@.len() && #[trigger] list@[j].key == k;
                assert(list@[j].key == k);
            }
            if exists|j: int| 0 <= j < i && (#[trigger] list@[j]).key == k {
                let j = choose|j: int| 0 <= j < i && (#[trigger] list@[j]).key == k;
                assert(more@.contains_key(list@[j].key));
            }
        }
        assert forall|k: i64| out@.contains_key(k) implies #[trigger] out@[k] == merged(
            acc@,
            more@,
        )[k] by {
            if more@.contains_key(k) {
                let j = choose|j: int| 0 <= j < list@.len() && #[trigger] list@[j].key == k;
                assert(out@[list@[j].key] == merged(acc@, more@)[list@[j].key]);
            } else {
                if exists|j: int| 0 <= j < i && (#[trigger] list@[j]).key == k {
                    let j = choose|j: int| 0 <= j < i && (#[trigger] list@[j]).key == k;
                    assert(more@.contains_key(list@[j].key));
                }
            }
        }
        assert(out@ =~= merged(acc@, more@));
    }
    Ok(out)
}

/// Whether `entries` lists what `map` holds, in ascending order of the
/// keys.
pub open spec fn lists(entries: Seq<Consume>, map: Map<i64, i64>) -> bool {
    &&& forall|i: int|
        0 <= i < entries.len() ==> map.contains_key(#[trigger] entries[i].key) && map[entries[i].key]
            == entries[i].value
    &&& forall|k: i64| #[trigger]
        map.contains_key(k) ==> exists|i: int| 0 <= i < entries.len() && #[trigger] entries[i].key == k
    &&& forall|i: int, j: int|
        0 <= i < j < entries.len() ==> #[trigger] entries[i].key < #[trigger] entries[j].key
}

/// What `map` holds, as the list of its entries in ascending order of the
/// keys.
pub open spec fn listing(map: Map<i64, i64>) -> Seq<Consume> {
    choose|entries: Seq<Consume>| lists(entries, map)
}

/// Two ascending lists of what one map holds agree up to the end of the
/// first.
proof fn lemma_lists_agree(a: Seq<Consume>, b: Seq<Consume>, map: Map<i64, i64>, n: int)
    requires
        lists(a, map),
        lists(b, map),
        0 <= n <= a.len(),
    ensures
        n <= b.len(),
        forall|i: int| 0 <= i < n ==> a[i] == b[i],
    decreases n,
{
    if n > 0 {
        lemma_lists_agree(a, b, map, n - 1);
        let k = a[n - 1].key;
        assert(map.contains_key(a[n - 1].key));
        let j = choose|j: int| 0 <= j < b.len() && #[trigger] b[j].key == k;
        if j < n - 1 {
            assert(a[j] == b[j]);
            assert(a[j].key < a[n - 1].key);
        } else if j > n - 1 {
            let k2 = b[n - 1].key;
            assert(map.contains_key(b[n - 1].key));
            let h = choose|h: int| 0 <= h < a.len() && #[trigger] a[h].key == k2;
            assert(b[n - 1].key < b[j].key);
            if h < n - 1 {
                assert(a[h] == b[h]);
                assert(b[h].key < b[n - 1].key);
            } else if h > n - 1 {
                assert(a[n - 1].key < a[h].key);
            }
        }
        assert(map[a[n - 1].key] == a[n - 1].value);
        assert(map[b[n - 1].key] == b[n - 1].value);
    }
}

/// What a map holds has one ascending list only.
pub proof fn lemma_listing(entries: Seq<Consume>, map: Map<i64, i64>)
    requires
        lists(entries, map),
    ensures
        entries == listing(map),
{
    let other = listing(map);
    lemma_lists_agree(entries, other, map, entries.len() as int);
    lemma_lists_agree(other, entries, map, other.len() as int);
    assert(entries =~= other);
}

/// The entries of `map`, in ascending order of their keys.
pub fn entries_of(map: &BTreeMap<i64, i64>) -> (r: Vec<Consume>)
    ensures
        lists(r@, map@),
        r@ == listing(map@),
{
    let mut r: Vec<Consume> = Vec::new();
    let ghost all = spec_btree_map_iter(map).remaining();
    proof {
        broadcast use axiom_key_obeys_cmp_spec_meaning;

        assert(key_obeys_cmp_spec::<i64>());
    }
    for kv in it: map.iter()
        invariant
            it.seq() == all,
            r@.len() == it.index(),
            forall|j: int|
                0 <= j < it.index() ==> #[trigger] r@[j] == (Consume { key: *all[j].0, value: *all[j].1 }),
    {
        r.push(Consume { key: *kv.0, value: *kv.1 });
    }
    proof {
        axiom_spec_btree_map_iter(map);
        let keys = all.map_values(|kv: (&i64, &i64)| *kv.0);
        assert(increasing_seq(keys));
        axiom_increasing_seq_meaning(keys);
        assert forall|i: int, j: int| 0 <= i < j < r@.len() implies #[trigger] r@[i].key
            < #[trigger] r@[j].key by {
            assert(keys[i] == r@[i].key);
            assert(keys[j] == r@[j].key);
            assert(keys[i].cmp_spec(&keys[j]) is Less);
        }
        assert forall|k: i64| #[trigger] map@.contains_key(k) implies exists|i: int|
            0 <= i < r@.len() && #[trigger] r@[i].key == k by {
            let i = all.index_of((&k, &map@[k]));
            assert(0 <= i < all.len() && all[i] == (&k, &map@[k]));
            assert(r@[i].key == k);
        }
        lemma_listing(r@, map@);
    }
    r
}

} // verus!
