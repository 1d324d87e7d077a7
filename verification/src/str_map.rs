//! A mapping from strings to values, kept in ascending order of its keys.
//!
//! The keys are ordered as `str` orders them, by their bytes. No key
//! occurs twice: putting a value under a key that is there replaces the
//! value. A map is modelled by the sequence of its entries, which is
//! fixed by what the map holds: the keys ascend strictly.

use vstd::prelude::*;
use vstd::utf8::encode_utf8;
use crate::text::{
    lemma_bytes_lt_irreflexive,
    lemma_bytes_lt_transitive,
    lemma_text_lt_total,
    precedes,
    same_text,
    text_lt,
};

verus! {

/// Whether the keys ascend strictly.
pub open spec fn ascending(keys: Seq<Seq<char>>) -> bool {
    forall|i: int, j: int|
        0 <= i < j < keys.len() ==> text_lt(#[trigger] keys[i], #[trigger] keys[j])
}

/// The keys of a sequence of entries, as texts.
pub open spec fn key_texts<V>(entries: Seq<(String, V)>) -> Seq<Seq<char>> {
    entries.map_values(|e: (String, V)| e.0@)
}

/// The first position at or after `i` whose key does not come before
/// `key`.
pub open spec fn rank_from(keys: Seq<Seq<char>>, key: Seq<char>, i: int) -> int
    decreases keys.len() - i,
{
    if 0 <= i < keys.len() && text_lt(keys[i], key) {
        rank_from(keys, key, i + 1)
    } else {
        i
    }
}

/// How many of the ascending `keys` come before `key`: the position at
/// which `key` stands or would have to be put.
pub open spec fn rank(keys: Seq<Seq<char>>, key: Seq<char>) -> int {
    rank_from(keys, key, 0)
}

/// The entries with `value` put under `key`: in place of the entry of that
/// key where there is one, and else where the order of the keys asks for.
pub open spec fn placed<V>(entries: Seq<(String, V)>, key: String, value: V) -> Seq<(String, V)> {
    let r = rank(key_texts(entries), key@);
    if r < entries.len() && entries[r].0@ == key@ {
        entries.update(r, (key, value))
    } else {
        entries.insert(r, (key, value))
    }
}

/// The order of texts is transitive.
pub proof fn lemma_text_lt_transitive(a: Seq<char>, b: Seq<char>, c: Seq<char>)
    requires
        text_lt(a, b),
        text_lt(b, c),
    ensures
        text_lt(a, c),
{
    lemma_bytes_lt_transitive(encode_utf8(a), encode_utf8(b), encode_utf8(c));
}

/// What `rank_from` returns: every key before it comes before `key`, and
/// the key at it does not.
pub proof fn lemma_rank_from(keys: Seq<Seq<char>>, key: Seq<char>, i: int)
    requires
        0 <= i <= keys.len(),
    ensures
        i <= rank_from(keys, key, i) <= keys.len(),
        forall|j: int| i <= j < rank_from(keys, key, i) ==> text_lt(#[trigger] keys[j], key),
        rank_from(keys, key, i) < keys.len() ==> !text_lt(keys[rank_from(keys, key, i)], key),
    decreases keys.len() - i,
{
    if i < keys.len() && text_lt(keys[i], key) {
        lemma_rank_from(keys, key, i + 1);
    }
}

/// In ascending keys, `key` can stand at its rank only.
pub proof fn lemma_rank_finds(keys: Seq<Seq<char>>, key: Seq<char>)
    requires
        ascending(keys),
    ensures
        0 <= rank(keys, key) <= keys.len(),
        forall|j: int| 0 <= j < rank(keys, key) ==> text_lt(#[trigger] keys[j], key),
        forall|j: int|
            rank(keys, key) <= j < keys.len() && keys[rank(keys, key)] != key ==> text_lt(
                key,
                #[trigger] keys[j],
            ),
        forall|j: int| 0 <= j < keys.len() && #[trigger] keys[j] == key ==> j == rank(keys, key),
{
    let r = rank(keys, key);
    lemma_rank_from(keys, key, 0);
    lemma_bytes_lt_irreflexive(encode_utf8(key));
    if r < keys.len() && keys[r] != key {
        lemma_text_lt_total(keys[r], key);
        assert forall|j: int| r <= j < keys.len() implies text_lt(key, #[trigger] keys[j]) by {
            if r < j {
                lemma_text_lt_transitive(key, keys[r], keys[j]);
            }
        }
    }
    assert forall|j: int| 0 <= j < keys.len() && #[trigger] keys[j] == key implies j == r by {
        if j > r {
            lemma_bytes_lt_irreflexive(encode_utf8(keys[r]));
            if keys[r] == key {
            } else {
                assert(text_lt(key, keys[j]));
            }
        }
    }
}

/// A key that is not among ascending keys can be put in at its rank, and
/// the keys still ascend.
pub proof fn lemma_insert_ascending(keys: Seq<Seq<char>>, key: Seq<char>)
    requires
        ascending(keys),
        rank(keys, key) < keys.len() ==> keys[rank(keys, key)] != key,
    ensures
        ascending(keys.insert(rank(keys, key), key)),
{
    let r = rank(keys, key);
    let new_keys = keys.insert(r, key);
    lemma_rank_finds(keys, key);
    assert forall|i: int, j: int| 0 <= i < j < new_keys.len() implies text_lt(
        #[trigger] new_keys[i],
        #[trigger] new_keys[j],
    ) by {
        if i < r && j > r {
            assert(text_lt(keys[i], keys[j - 1]));
        } else if i == r {
            assert(text_lt(key, keys[j - 1]));
        } else if j == r {
            assert(text_lt(keys[i], key));
        } else if j < r {
            assert(text_lt(keys[i], keys[j]));
        } else {
            assert(text_lt(keys[i - 1], keys[j - 1]));
        }
    }
}

/// Putting a value under a key keeps the keys ascending.
pub proof fn lemma_placed_ascending<V>(entries: Seq<(String, V)>, key: String, value: V)
    requires
        ascending(key_texts(entries)),
    ensures
        ascending(key_texts(placed(entries, key, value))),
{
    let keys = key_texts(entries);
    let r = rank(keys, key@);
    let new_keys = key_texts(placed(entries, key, value));
    lemma_rank_from(keys, key@, 0);
    if r < entries.len() && entries[r].0@ == key@ {
        assert(new_keys =~= keys);
    } else {
        lemma_insert_ascending(keys, key@);
        assert(new_keys =~= keys.insert(r, key@));
    }
}

/// A key that comes behind all keys is put at the end.
pub proof fn lemma_placed_last<V>(entries: Seq<(String, V)>, key: String, value: V)
    requires
        ascending(key_texts(entries)),
        entries.len() > 0 ==> text_lt(entries.last().0@, key@),
    ensures
        placed(entries, key, value) == entries.push((key, value)),
{
    let keys = key_texts(entries);
    lemma_rank_from(keys, key@, 0);
    let r = rank(keys, key@);
    if r < entries.len() {
        if r < entries.len() - 1 {
            assert(text_lt(keys[r], keys[entries.len() - 1]));
            assert(keys[entries.len() - 1] == entries.last().0@);
            lemma_text_lt_transitive(keys[r], entries.last().0@, key@);
        } else {
            assert(keys[r] == entries.last().0@);
        }
        assert(false);
    }
    assert(entries.insert(r, (key, value)) =~= entries.push((key, value)));
}

/// The keys of a sequence of entries whose keys are texts.
pub open spec fn keys_of<W>(entries: Seq<(Seq<char>, W)>) -> Seq<Seq<char>> {
    entries.map_values(|e: (Seq<char>, W)| e.0)
}

/// What `placed` is on entries whose keys are texts.
pub open spec fn put<W>(entries: Seq<(Seq<char>, W)>, key: Seq<char>, value: W) -> Seq<
    (Seq<char>, W),
> {
    let r = rank(keys_of(entries), key);
    if r < entries.len() && entries[r].0 == key {
        entries.update(r, (key, value))
    } else {
        entries.insert(r, (key, value))
    }
}

/// The mapping that a sequence of entries stands for: what is under each
/// key.
pub open spec fn as_map<W>(entries: Seq<(Seq<char>, W)>) -> Map<Seq<char>, W> {
    Map::new(
        |k: Seq<char>| keys_of(entries).contains(k),
        |k: Seq<char>| entries[keys_of(entries).index_of(k)].1,
    )
}

/// Among ascending keys no key stands twice.
pub proof fn lemma_ascending_unique(keys: Seq<Seq<char>>)
    requires
        ascending(keys),
    ensures
        forall|i: int, j: int|
            0 <= i < keys.len() && 0 <= j < keys.len() && #[trigger] keys[i] == #[trigger] keys[j]
                ==> i == j,
        forall|i: int| 0 <= i < keys.len() ==> keys.index_of(#[trigger] keys[i]) == i,
{
    assert forall|i: int, j: int|
        0 <= i < keys.len() && 0 <= j < keys.len() && #[trigger] keys[i]
            == #[trigger] keys[j] implies i == j by {
        lemma_bytes_lt_irreflexive(encode_utf8(keys[i]));
        if i < j {
            assert(text_lt(keys[i], keys[j]));
        } else if j < i {
            assert(text_lt(keys[j], keys[i]));
        }
    }
    assert forall|i: int| 0 <= i < keys.len() implies keys.index_of(#[trigger] keys[i]) == i by {
        let h = keys.index_of(keys[i]);
        assert(keys.contains(keys[i]));
        assert(0 <= h < keys.len() && keys[h] == keys[i]);
    }
}

/// Putting a value under a key is what inserting into a mapping is: the
/// value is under the key afterwards, whatever was there, all else is as
/// it was, and the keys still ascend.
pub proof fn lemma_put_inserts<W>(entries: Seq<(Seq<char>, W)>, key: Seq<char>, value: W)
    requires
        ascending(keys_of(entries)),
    ensures
        ascending(keys_of(put(entries, key, value))),
        as_map(put(entries, key, value)) == as_map(entries).insert(key, value),
{
    let keys = keys_of(entries);
    let r = rank(keys, key);
    let after = put(entries, key, value);
    let new_keys = keys_of(after);
    lemma_rank_finds(keys, key);
    if r < entries.len() && entries[r].0 == key {
        assert(new_keys =~= keys);
    } else {
        lemma_insert_ascending(keys, key);
        assert(new_keys =~= keys.insert(r, key));
    }
    lemma_ascending_unique(keys);
    lemma_ascending_unique(new_keys);
    let want = as_map(entries).insert(key, value);
    assert forall|k: Seq<char>| #[trigger] as_map(after).contains_key(k) <==> want.contains_key(
        k,
    ) by {
        if new_keys.contains(k) {
            let h = new_keys.index_of(k);
            if r < entries.len() && entries[r].0 == key {
                assert(keys[h] == k);
            } else if h < r {
                assert(keys[h] == k);
            } else if h > r {
                assert(keys[h - 1] == k);
            }
        }
        if keys.contains(k) {
            let h = keys.index_of(k);
            if r < entries.len() && entries[r].0 == key {
                assert(new_keys[h] == k);
            } else if h < r {
                assert(new_keys[h] == k);
            } else {
                assert(new_keys[h + 1] == k);
            }
        }
        if k == key {
            assert(new_keys[r] == k);
        }
    }
    assert forall|k: Seq<char>| as_map(after).contains_key(k) implies #[trigger] as_map(after)[k]
        == want[k] by {
        let h = new_keys.index_of(k);
        assert(0 <= h < new_keys.len() && new_keys[h] == k);
        if r < entries.len() && entries[r].0 == key {
            assert(keys[h] == k);
            assert(keys.index_of(keys[h]) == h);
        } else if h < r {
            assert(keys[h] == k);
            assert(keys.index_of(keys[h]) == h);
        } else if h > r {
            assert(keys[h - 1] == k);
            assert(keys.index_of(keys[h - 1]) == h - 1);
            assert(new_keys[r] == key);
        }
    }
    assert(as_map(after) =~= want);
}

/// Two ascending sequences of entries that stand for one mapping agree up
/// to the end of the first.
proof fn lemma_entries_agree<W>(a: Seq<(Seq<char>, W)>, b: Seq<(Seq<char>, W)>, n: int)
    requires
        ascending(keys_of(a)),
        ascending(keys_of(b)),
        as_map(a) == as_map(b),
        0 <= n <= a.len(),
    ensures
        n <= b.len(),
        forall|i: int| 0 <= i < n ==> a[i] == b[i],
    decreases n,
{
    if n > 0 {
        lemma_entries_agree(a, b, n - 1);
        let ka = keys_of(a);
        let kb = keys_of(b);
        lemma_ascending_unique(ka);
        lemma_ascending_unique(kb);
        let k = ka[n - 1];
        assert(ka.contains(k));
        assert(as_map(a).contains_key(k));
        assert(as_map(b).contains_key(k));
        let j = kb.index_of(k);
        assert(0 <= j < kb.len() && kb[j] == k);
        if j < n - 1 {
            assert(a[j] == b[j]);
            assert(ka[j] == kb[j]);
        } else if j > n - 1 {
            let k2 = kb[n - 1];
            assert(kb.contains(k2));
            assert(as_map(b).contains_key(k2));
            assert(as_map(a).contains_key(k2));
            let h = ka.index_of(k2);
            assert(0 <= h < ka.len() && ka[h] == k2);
            assert(text_lt(kb[n - 1], kb[j]));
            lemma_bytes_lt_irreflexive(encode_utf8(k));
            if h < n - 1 {
                assert(a[h] == b[h]);
                assert(ka[h] == kb[h]);
            } else if h > n - 1 {
                assert(text_lt(ka[n - 1], ka[h]));
                lemma_text_lt_transitive(k, k2, k);
            }
        }
        assert(ka.index_of(ka[n - 1]) == n - 1);
        assert(kb.index_of(kb[n - 1]) == n - 1);
        assert(as_map(a)[k] == a[n - 1].1);
        assert(as_map(b)[k] == b[n - 1].1);
        assert(a[n - 1].0 == ka[n - 1]);
        assert(b[n - 1].0 == kb[n - 1]);
    }
}

/// A mapping has one ascending sequence of entries only: what a map holds
/// does not depend on the order in which it was filled.
pub proof fn lemma_entries_by_map<W>(a: Seq<(Seq<char>, W)>, b: Seq<(Seq<char>, W)>)
    requires
        ascending(keys_of(a)),
        ascending(keys_of(b)),
        as_map(a) == as_map(b),
    ensures
        a == b,
{
    lemma_entries_agree(a, b, a.len() as int);
    lemma_entries_agree(b, a, b.len() as int);
    assert(a =~= b);
}

/// The entries of a map, each key as a text and each value by its view.
pub open spec fn entry_views<V: View>(entries: Seq<(String, V)>) -> Seq<(Seq<char>, V::V)> {
    entries.map_values(|e: (String, V)| (e.0@, e.1@))
}

/// Putting a value under a key puts its view under the key's text.
pub proof fn lemma_placed_view<V: View>(entries: Seq<(String, V)>, key: String, value: V)
    ensures
        entry_views(placed(entries, key, value)) == put(entry_views(entries), key@, value@),
{
    assert(keys_of(entry_views(entries)) =~= key_texts(entries));
    let r = rank(key_texts(entries), key@);
    lemma_rank_from(key_texts(entries), key@, 0);
    assert(entry_views(placed(entries, key, value)) =~= put(entry_views(entries), key@, value@));
}

/// A mapping from strings to values of `V`, in ascending order of its
/// keys.
#[derive(Default, Debug, PartialEq)]
pub struct StrMap<V> {
    entries: Vec<(String, V)>,
}

impl<V> StrMap<V> {
    #[verifier::type_invariant]
    spec fn in_order(self) -> bool {
        ascending(key_texts(self.entries@))
    }

    /// The entries, in ascending order of their keys.
    pub closed spec fn entries(self) -> Seq<(String, V)> {
        self.entries@
    }

    /// The keys, in ascending order.
    pub open spec fn keys(self) -> Seq<Seq<char>> {
        key_texts(self.entries())
    }

    /// Whether `key` is a key of the map.
    pub open spec fn has(self, key: Seq<char>) -> bool {
        self.keys().contains(key)
    }

    /// The value under `key`.
    pub open spec fn value_of(self, key: Seq<char>) -> Option<V> {
        if self.has(key) {
            Some(self.entries()[self.keys().index_of(key)].1)
        } else {
            None
        }
    }

    /// The map without entries.
    pub fn new() -> (m: Self)
        ensures
            m.entries() == Seq::<(String, V)>::empty(),
    {
        let m = StrMap { entries: Vec::new() };
        assert(m.entries@ =~= Seq::<(String, V)>::empty());
        m
    }

    /// The number of entries.
    pub fn len(&self) -> (n: usize)
        ensures
            n == self.entries().len(),
    {
        self.entries.len()
    }

    /// The key of the entry at position `i`.
    pub fn key_at(&self, i: usize) -> (k: &String)
        requires
            i < self.entries().len(),
        ensures
            *k == self.entries()[i as int].0,
    {
        &self.entries[i].0
    }

    /// The value of the entry at position `i`.
    pub fn value_at(&self, i: usize) -> (v: &V)
        requires
            i < self.entries().len(),
        ensures
            *v == self.entries()[i as int].1,
    {
        &self.entries[i].1
    }

    /// States what holds of every map: its keys ascend strictly.
    pub fn ordered(&self)
        ensures
            ascending(self.keys()),
    {
        proof {
            use_type_invariant(self);
        }
    }

    /// The position at which `key` stands or would have to be put.
    pub fn position(&self, key: &str) -> (r: usize)
        ensures
            r == rank(self.keys(), key@),
            r <= self.entries().len(),
    {
        let mut i: usize = 0;
        while i < self.entries.len() && precedes(self.entries[i].0.as_str(), key)
            invariant
                0 <= i <= self.entries@.len(),
                rank_from(key_texts(self.entries@), key@, i as int) == rank(
                    key_texts(self.entries@),
                    key@,
                ),
            decreases self.entries@.len() - i,
        {
            i = i + 1;
        }
        i
    }

    /// The value under `key`, if there is one.
    pub fn get(&self, key: &str) -> (r: Option<&V>)
        ensures
            match r {
                Some(v) => self.value_of(key@) == Some(*v),
                None => self.value_of(key@) is None,
            },
    {
        let i: usize = self.position(key);
        proof {
            use_type_invariant(self);
            lemma_rank_finds(self.keys(), key@);
            lemma_bytes_lt_irreflexive(encode_utf8(key@));
        }
        if i < self.entries.len() && same_text(self.entries[i].0.as_str(), key) {
            assert(self.keys()[i as int] == key@);
            Some(&self.entries[i].1)
        } else {
            assert(!self.keys().contains(key@));
            None
        }
    }

    /// Puts `value` under `key`, which comes behind all keys of the map.
    pub fn push_last(&mut self, key: String, value: V)
        requires
            old(self).entries().len() > 0 ==> text_lt(old(self).entries().last().0@, key@),
        ensures
            final(self).entries() == old(self).entries().push((key, value)),
    {
        proof {
            use_type_invariant(&*self);
            lemma_placed_last(self.entries@, key, value);
        }
        self.insert(key, value);
    }

    /// Puts `value` under `key`, in place of the value that was there if
    /// there was one.
    pub fn insert(&mut self, key: String, value: V)
        ensures
            final(self).entries() == placed(old(self).entries(), key, value),
    {
        let i: usize = self.position(key.as_str());
        proof {
            use_type_invariant(&*self);
            lemma_placed_ascending(self.entries@, key, value);
        }
        let mut entries: Vec<(String, V)> = Vec::new();
        std::mem::swap(&mut entries, &mut self.entries);
        if i < entries.len() && same_text(entries[i].0.as_str(), key.as_str()) {
            entries.set(i, (key, value));
        } else {
            entries.insert(i, (key, value));
        }
        self.entries = entries;
    }
}

impl<V: View> View for StrMap<V> {
    type V = Seq<(Seq<char>, V::V)>;

    /// The entries in ascending order of their keys, each key as a text
    /// and each value by its own view.
    open spec fn view(&self) -> Seq<(Seq<char>, V::V)> {
        entry_views(self.entries())
    }
}

/// Values that can be compared by what they hold.
pub trait Content: View + Sized {
    /// Whether `self` and `other` hold the same.
    fn same(&self, other: &Self) -> (r: bool)
        ensures
            r == (self@ == other@),
    ;
}

impl Content for i64 {
    fn same(&self, other: &i64) -> (r: bool) {
        *self == *other
    }
}

impl Content for String {
    fn same(&self, other: &String) -> (r: bool) {
        *self == *other
    }
}

impl<V: Content> Content for StrMap<V> {
    fn same(&self, other: &StrMap<V>) -> (r: bool) {
        if self.entries.len() != other.entries.len() {
            assert(self@.len() != other@.len());
            return false;
        }
        let mut i: usize = 0;
        while i < self.entries.len()
            invariant
                0 <= i <= self.entries@.len(),
                self.entries@.len() == other.entries@.len(),
                forall|j: int| 0 <= j < i ==> #[trigger] self@[j] == other@[j],
            decreases self.entries@.len() - i,
        {
            if !same_text(self.entries[i].0.as_str(), other.entries[i].0.as_str()) {
                assert(self@[i as int] != other@[i as int]);
                return false;
            }
            if !self.entries[i].1.same(&other.entries[i].1) {
                assert(self@[i as int] != other@[i as int]);
                return false;
            }
            assert(self@[i as int] == other@[i as int]);
            i = i + 1;
        }
        assert(self@ =~= other@);
        true
    }
}

} // verus!
