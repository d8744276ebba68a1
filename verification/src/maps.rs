//! Maps from text keys: one that keeps its entries in no particular order, and one that keeps
//! them in ascending order of their keys.
use crate::text;
use vstd::prelude::*;

verus! {

/// The map that a list of pairs gives when they are entered one by one: where a key occurs more
/// than once, the last pair counts.
pub open spec fn collected<W>(pairs: Seq<(Seq<char>, W)>) -> Map<Seq<char>, W>
    decreases pairs.len(),
{
    if pairs.len() == 0 {
        Map::empty()
    } else {
        collected(pairs.drop_last()).insert(pairs.last().0, pairs.last().1)
    }
}

/// Whether no key occurs twice.
pub open spec fn distinct_keys<W>(pairs: Seq<(Seq<char>, W)>) -> bool {
    forall|i: int, j: int|
        0 <= i < j < pairs.len() ==> (#[trigger] pairs[i]).0 != (#[trigger] pairs[j]).0
}

/// Whether the keys stand in strictly ascending order.
pub open spec fn ascending_keys<W>(pairs: Seq<(Seq<char>, W)>) -> bool {
    forall|i: int, j: int|
        0 <= i < j < pairs.len() ==> text::text_before(
            (#[trigger] pairs[i]).0,
            (#[trigger] pairs[j]).0,
        )
}

/// Whether `pairs` holds the entries of `map`, and no others, in ascending order of their keys.
pub open spec fn lists<W>(pairs: Seq<(Seq<char>, W)>, map: Map<Seq<char>, W>) -> bool {
    &&& ascending_keys(pairs)
    &&& collected(pairs) == map
}

/// The entries of a map in ascending order of their keys.
pub open spec fn listing<W>(map: Map<Seq<char>, W>) -> Seq<(Seq<char>, W)> {
    choose|pairs: Seq<(Seq<char>, W)>| lists(pairs, map)
}

/// Strictly ascending keys are distinct.
pub proof fn lemma_ascending_distinct<W>(pairs: Seq<(Seq<char>, W)>)
    requires
        ascending_keys(pairs),
    ensures
        distinct_keys(pairs),
{
    assert forall|i: int, j: int| 0 <= i < j < pairs.len() implies (#[trigger] pairs[i]).0 != (
    #[trigger] pairs[j]).0 by {
        text::lemma_text_before_irreflexive(pairs[i].0);
    }
}

/// Every key of a collected map comes from a pair.
pub proof fn lemma_collected_from<W>(pairs: Seq<(Seq<char>, W)>, key: Seq<char>)
    requires
        collected(pairs).contains_key(key),
    ensures
        exists|i: int| 0 <= i < pairs.len() && (#[trigger] pairs[i]).0 == key,
    decreases pairs.len(),
{
    if pairs.last().0 != key {
        lemma_collected_from(pairs.drop_last(), key);
        let i = choose|i: int|
            0 <= i < pairs.drop_last().len() && (#[trigger] pairs.drop_last()[i]).0 == key;
        assert(pairs[i].0 == key);
    } else {
        assert(pairs[pairs.len() - 1].0 == key);
    }
}

/// Every value of a collected map comes from a pair with its key.
proof fn lemma_collected_value<W>(pairs: Seq<(Seq<char>, W)>, key: Seq<char>) -> (i: int)
    requires
        collected(pairs).contains_key(key),
    ensures
        0 <= i < pairs.len(),
        pairs[i] == (key, collected(pairs)[key]),
    decreases pairs.len(),
{
    if pairs.last().0 == key {
        pairs.len() - 1
    } else {
        lemma_collected_value(pairs.drop_last(), key)
    }
}

/// With distinct keys, the collected map holds every pair.
pub proof fn lemma_collected_at<W>(pairs: Seq<(Seq<char>, W)>, i: int)
    requires
        distinct_keys(pairs),
        0 <= i < pairs.len(),
    ensures
        collected(pairs).contains_key(pairs[i].0),
        collected(pairs)[pairs[i].0] == pairs[i].1,
    decreases pairs.len(),
{
    if i < pairs.len() - 1 {
        let fewer = pairs.drop_last();
        assert(fewer[i] == pairs[i]);
        assert forall|a: int, b: int| 0 <= a < b < fewer.len() implies (#[trigger] fewer[a]).0 != (
        #[trigger] fewer[b]).0 by {
            assert(pairs[a].0 != pairs[b].0);
        }
        lemma_collected_at(fewer, i);
        assert(pairs[i].0 != pairs[pairs.len() - 1].0);
    }
}

/// A map with the entries of a list with distinct keys, and no others, is what the list gives.
pub proof fn lemma_collected_is<W>(pairs: Seq<(Seq<char>, W)>, map: Map<Seq<char>, W>)
    requires
        distinct_keys(pairs),
        forall|i: int|
            0 <= i < pairs.len() ==> map.contains_key((#[trigger] pairs[i]).0) && map[pairs[i].0]
                == pairs[i].1,
        forall|key: Seq<char>| #[trigger]
            map.contains_key(key) ==> exists|i: int|
                0 <= i < pairs.len() && (#[trigger] pairs[i]).0 == key,
    ensures
        collected(pairs) == map,
{
    assert forall|key: Seq<char>| #[trigger]
        collected(pairs).contains_key(key) implies map.contains_key(key) && map[key] == collected(
        pairs,
    )[key] by {
        lemma_collected_from(pairs, key);
        let i = choose|i: int| 0 <= i < pairs.len() && (#[trigger] pairs[i]).0 == key;
        lemma_collected_at(pairs, i);
    }
    assert forall|key: Seq<char>| #[trigger] map.contains_key(key) implies collected(
        pairs,
    ).contains_key(key) by {
        let i = choose|i: int| 0 <= i < pairs.len() && (#[trigger] pairs[i]).0 == key;
        lemma_collected_at(pairs, i);
    }
    assert(collected(pairs) =~= map);
}

/// The first keys of two listings of one map are the same.
proof fn lemma_first_key<W>(a: Seq<(Seq<char>, W)>, b: Seq<(Seq<char>, W)>)
    requires
        ascending_keys(a),
        ascending_keys(b),
        collected(a) == collected(b),
        a.len() > 0,
    ensures
        b.len() > 0,
        !text::text_before(a[0].0, b[0].0),
{
    lemma_ascending_distinct(a);
    lemma_collected_at(a, 0);
    lemma_collected_from(b, a[0].0);
    let j = choose|j: int| 0 <= j < b.len() && (#[trigger] b[j]).0 == a[0].0;
    if text::text_before(a[0].0, b[0].0) {
        text::lemma_text_before_irreflexive(a[0].0);
        if j > 0 {
            assert(text::text_before(b[0].0, b[j].0));
            text::lemma_text_before_transitive(a[0].0, b[0].0, a[0].0);
        }
    }
}

/// A map has one listing only.
pub proof fn lemma_listing_unique<W>(a: Seq<(Seq<char>, W)>, b: Seq<(Seq<char>, W)>)
    requires
        ascending_keys(a),
        ascending_keys(b),
        collected(a) == collected(b),
    ensures
        a == b,
    decreases a.len(),
{
    if a.len() > 0 && b.len() > 0 {
        lemma_first_key(a, b);
        lemma_first_key(b, a);
        text::lemma_text_before_total(a[0].0, b[0].0);
        lemma_ascending_distinct(a);
        lemma_ascending_distinct(b);
        lemma_collected_at(a, 0);
        lemma_collected_at(b, 0);
        lemma_collected_rest(a);
        lemma_collected_rest(b);
        lemma_listing_unique(a.drop_first(), b.drop_first());
        assert(a =~= seq![a[0]] + a.drop_first());
        assert(b =~= seq![b[0]] + b.drop_first());
    } else if a.len() > 0 {
        lemma_first_key(a, b);
    } else if b.len() > 0 {
        lemma_first_key(b, a);
    } else {
        assert(a =~= b);
    }
}

proof fn lemma_collected_rest<W>(pairs: Seq<(Seq<char>, W)>)
    requires
        ascending_keys(pairs),
        pairs.len() > 0,
    ensures
        ascending_keys(pairs.drop_first()),
        collected(pairs.drop_first()) == collected(pairs).remove(pairs[0].0),
{
    let rest = pairs.drop_first();
    assert forall|i: int, j: int| 0 <= i < j < rest.len() implies text::text_before(
        (#[trigger] rest[i]).0,
        (#[trigger] rest[j]).0,
    ) by {
        assert(text::text_before(pairs[i + 1].0, pairs[j + 1].0));
    }
    lemma_ascending_distinct(pairs);
    lemma_ascending_distinct(rest);
    let map = collected(pairs).remove(pairs[0].0);
    assert forall|i: int| 0 <= i < rest.len() implies map.contains_key((#[trigger] rest[i]).0)
        && map[rest[i].0] == rest[i].1 by {
        assert(rest[i] == pairs[i + 1]);
        assert(pairs[0].0 != pairs[i + 1].0);
        lemma_collected_at(pairs, i + 1);
    }
    assert forall|key: Seq<char>| #[trigger] map.contains_key(key) implies exists|i: int|
        0 <= i < rest.len() && (#[trigger] rest[i]).0 == key by {
        lemma_collected_from(pairs, key);
        let i = choose|i: int| 0 <= i < pairs.len() && (#[trigger] pairs[i]).0 == key;
        assert(rest[i - 1].0 == key);
    }
    lemma_collected_is(rest, map);
}

/// A list in ascending order is the listing of the map it gives.
pub proof fn lemma_is_listing<W>(pairs: Seq<(Seq<char>, W)>)
    requires
        ascending_keys(pairs),
    ensures
        listing(collected(pairs)) == pairs,
{
    assert(lists(pairs, collected(pairs)));
    lemma_listing_unique(pairs, listing(collected(pairs)));
}

/// Whether `key` belongs before the entry at `position` and after those in front of it, or is the
/// key of that entry.
pub open spec fn is_place<W>(pairs: Seq<(Seq<char>, W)>, position: int, key: Seq<char>) -> bool {
    &&& 0 <= position <= pairs.len()
    &&& forall|j: int| 0 <= j < position ==> text::text_before((#[trigger] pairs[j]).0, key)
    &&& position < pairs.len() ==> pairs[position].0 == key || text::text_before(
        key,
        pairs[position].0,
    )
}

/// The list with `value` under `key`, where `position` is the place of `key`.
pub open spec fn with_entry<W>(
    pairs: Seq<(Seq<char>, W)>,
    position: int,
    key: Seq<char>,
    value: W,
) -> Seq<(Seq<char>, W)> {
    if position < pairs.len() && pairs[position].0 == key {
        pairs.update(position, (key, value))
    } else {
        pairs.insert(position, (key, value))
    }
}

/// Behind the place of a key stand greater keys only.
proof fn lemma_behind_place<W>(
    pairs: Seq<(Seq<char>, W)>,
    position: int,
    key: Seq<char>,
    j: int,
)
    requires
        ascending_keys(pairs),
        is_place(pairs, position, key),
        position <= j < pairs.len(),
        pairs[position].0 != key || position < j,
    ensures
        text::text_before(key, pairs[j].0),
{
    if position < j {
        assert(text::text_before(pairs[position].0, pairs[j].0));
        if pairs[position].0 != key {
            text::lemma_text_before_transitive(key, pairs[position].0, pairs[j].0);
        }
    }
}

/// Where the key at its place differs, the map has no entry under it.
pub proof fn lemma_absent<W>(pairs: Seq<(Seq<char>, W)>, position: int, key: Seq<char>)
    requires
        ascending_keys(pairs),
        is_place(pairs, position, key),
        position == pairs.len() || pairs[position].0 != key,
    ensures
        !collected(pairs).contains_key(key),
{
    if collected(pairs).contains_key(key) {
        lemma_collected_from(pairs, key);
        let j = choose|j: int| 0 <= j < pairs.len() && (#[trigger] pairs[j]).0 == key;
        text::lemma_text_before_irreflexive(key);
        if position <= j {
            lemma_behind_place(pairs, position, key, j);
        }
    }
}

/// Entering a value at the place of its key keeps the order and enters it into the map.
pub proof fn lemma_with_entry<W>(
    pairs: Seq<(Seq<char>, W)>,
    position: int,
    key: Seq<char>,
    value: W,
)
    requires
        ascending_keys(pairs),
        is_place(pairs, position, key),
    ensures
        ascending_keys(with_entry(pairs, position, key, value)),
        collected(with_entry(pairs, position, key, value)) == collected(pairs).insert(key, value),
{
    let entered = with_entry(pairs, position, key, value);
    let map = collected(pairs).insert(key, value);
    let replaces = position < pairs.len() && pairs[position].0 == key;
    // Where the entry at `i` of the new list stood in the old one.
    let before = |i: int| if i < position || replaces { i } else { i - 1 };
    assert forall|i: int| 0 <= i < entered.len() && i != position implies #[trigger] entered[i]
        == pairs[before(i)] && 0 <= before(i) < pairs.len() by {}
    assert(entered[position] == (key, value));
    assert forall|i: int, j: int| 0 <= i < j < entered.len() implies text::text_before(
        (#[trigger] entered[i]).0,
        (#[trigger] entered[j]).0,
    ) by {
        if i == position {
            lemma_behind_place(pairs, position, key, before(j));
        } else if j != position {
            assert(text::text_before(pairs[before(i)].0, pairs[before(j)].0));
        }
    }
    lemma_ascending_distinct(pairs);
    lemma_ascending_distinct(entered);
    assert forall|i: int| 0 <= i < entered.len() implies map.contains_key((#[trigger] entered[i]).0)
        && map[entered[i].0] == entered[i].1 by {
        if i != position {
            assert(entered[i].0 != entered[position].0);
            lemma_collected_at(pairs, before(i));
        }
    }
    assert forall|k: Seq<char>| #[trigger] map.contains_key(k) implies exists|i: int|
        0 <= i < entered.len() && (#[trigger] entered[i]).0 == k by {
        if k == key {
            assert(entered[position].0 == k);
        } else {
            lemma_collected_from(pairs, k);
            let i = choose|i: int| 0 <= i < pairs.len() && (#[trigger] pairs[i]).0 == k;
            let after = if i < position || replaces { i } else { i + 1 };
            assert(entered[after] == pairs[i]);
        }
    }
    lemma_collected_is(entered, map);
}

/// Taking an entry out keeps the order and takes it out of the map.
pub proof fn lemma_without_entry<W>(pairs: Seq<(Seq<char>, W)>, position: int)
    requires
        ascending_keys(pairs),
        0 <= position < pairs.len(),
    ensures
        ascending_keys(pairs.remove(position)),
        collected(pairs.remove(position)) == collected(pairs).remove(pairs[position].0),
{
    let left = pairs.remove(position);
    let key = pairs[position].0;
    let map = collected(pairs).remove(key);
    let before = |i: int| if i < position { i } else { i + 1 };
    assert forall|i: int| 0 <= i < left.len() implies #[trigger] left[i] == pairs[before(i)] by {}
    assert forall|i: int, j: int| 0 <= i < j < left.len() implies text::text_before(
        (#[trigger] left[i]).0,
        (#[trigger] left[j]).0,
    ) by {
        assert(text::text_before(pairs[before(i)].0, pairs[before(j)].0));
    }
    lemma_ascending_distinct(pairs);
    lemma_ascending_distinct(left);
    assert forall|i: int| 0 <= i < left.len() implies map.contains_key((#[trigger] left[i]).0)
        && map[left[i].0] == left[i].1 by {
        lemma_collected_at(pairs, before(i));
        if i < position {
            assert(pairs[i].0 != pairs[position].0);
        } else {
            assert(pairs[position].0 != pairs[i + 1].0);
        }
    }
    assert forall|k: Seq<char>| #[trigger] map.contains_key(k) implies exists|i: int|
        0 <= i < left.len() && (#[trigger] left[i]).0 == k by {
        lemma_collected_from(pairs, k);
        let i = choose|i: int| 0 <= i < pairs.len() && (#[trigger] pairs[i]).0 == k;
        let after = if i < position { i } else { i - 1 };
        assert(left[after] == pairs[i]);
    }
    lemma_collected_is(left, map);
}

/// Every key has a place in an ascending list.
proof fn lemma_place_exists<W>(pairs: Seq<(Seq<char>, W)>, key: Seq<char>) -> (position: int)
    requires
        ascending_keys(pairs),
    ensures
        is_place(pairs, position, key),
    decreases pairs.len(),
{
    if pairs.len() == 0 {
        0
    } else if text::text_before(pairs.last().0, key) {
        assert forall|j: int| 0 <= j < pairs.len() implies text::text_before(
            (#[trigger] pairs[j]).0,
            key,
        ) by {
            if j < pairs.len() - 1 {
                assert(text::text_before(pairs[j].0, pairs[pairs.len() - 1].0));
                text::lemma_text_before_transitive(pairs[j].0, pairs.last().0, key);
            }
        }
        pairs.len() as int
    } else {
        let fewer = pairs.drop_last();
        assert(ascending_keys(fewer)) by {
            assert forall|i: int, j: int| 0 <= i < j < fewer.len() implies text::text_before(
                (#[trigger] fewer[i]).0,
                (#[trigger] fewer[j]).0,
            ) by {
                assert(text::text_before(pairs[i].0, pairs[j].0));
            }
        }
        let position = lemma_place_exists(fewer, key);
        text::lemma_text_before_total(pairs.last().0, key);
        assert forall|j: int| 0 <= j < position implies text::text_before(
            (#[trigger] pairs[j]).0,
            key,
        ) by {
            assert(fewer[j] == pairs[j]);
        }
        if position < fewer.len() {
            assert(fewer[position] == pairs[position]);
        }
        position
    }
}

/// Whatever list a map was collected from, it has a listing.
pub proof fn lemma_listed<W>(pairs: Seq<(Seq<char>, W)>)
    ensures
        lists(listing(collected(pairs)), collected(pairs)),
    decreases pairs.len(),
{
    if pairs.len() == 0 {
        assert(lists(pairs, collected(pairs)));
    } else {
        lemma_listed(pairs.drop_last());
        let fewer = listing(collected(pairs.drop_last()));
        let (key, value) = pairs.last();
        let position = lemma_place_exists(fewer, key);
        lemma_with_entry(fewer, position, key, value);
        assert(lists(with_entry(fewer, position, key, value), collected(pairs)));
    }
}

/// A map that was collected from a list is finite.
pub proof fn lemma_collected_finite<W>(pairs: Seq<(Seq<char>, W)>)
    ensures
        collected(pairs).dom().finite(),
    decreases pairs.len(),
{
    if pairs.len() > 0 {
        lemma_collected_finite(pairs.drop_last());
    }
}

/// A finite map has a listing.
pub proof fn lemma_finite_listed<W>(map: Map<Seq<char>, W>)
    requires
        map.dom().finite(),
    ensures
        lists(listing(map), map),
    decreases map.dom().len(),
{
    if map.dom().is_empty() {
        let none: Seq<(Seq<char>, W)> = seq![];
        assert(collected(none) =~= map);
        assert(lists(none, map));
    } else {
        let key = map.dom().choose();
        let fewer = map.remove(key);
        lemma_finite_listed(fewer);
        let position = lemma_place_exists(listing(fewer), key);
        lemma_with_entry(listing(fewer), position, key, map[key]);
        assert(fewer.insert(key, map[key]) =~= map);
        assert(lists(with_entry(listing(fewer), position, key, map[key]), map));
    }
}

/// With distinct keys, the collected map has as many entries as there are pairs.
pub proof fn lemma_collected_len<W>(pairs: Seq<(Seq<char>, W)>)
    requires
        distinct_keys(pairs),
    ensures
        collected(pairs).dom().finite(),
        collected(pairs).dom().len() == pairs.len(),
    decreases pairs.len(),
{
    lemma_collected_finite(pairs);
    if pairs.len() > 0 {
        let fewer = pairs.drop_last();
        lemma_distinct_last(pairs);
        lemma_collected_len(fewer);
        assert(collected(pairs).dom() =~= collected(fewer).dom().insert(pairs.last().0));
        assert(!collected(fewer).contains_key(pairs.last().0));
    }
}

/// The map with `change` applied to every entry.
pub open spec fn changed<W, U>(
    map: Map<Seq<char>, W>,
    change: spec_fn(Seq<char>, W) -> U,
) -> Map<Seq<char>, U> {
    Map::new(|key: Seq<char>| map.contains_key(key), |key: Seq<char>| change(key, map[key]))
}

/// The list with `change` applied to every entry.
pub open spec fn changed_pairs<W, U>(
    pairs: Seq<(Seq<char>, W)>,
    change: spec_fn(Seq<char>, W) -> U,
) -> Seq<(Seq<char>, U)> {
    pairs.map_values(|pair: (Seq<char>, W)| (pair.0, change(pair.0, pair.1)))
}

/// Changing the values of a map changes those of its listing.
pub proof fn lemma_changed_listing<W, U>(
    map: Map<Seq<char>, W>,
    change: spec_fn(Seq<char>, W) -> U,
)
    requires
        lists(listing(map), map),
    ensures
        listing(changed(map, change)) == changed_pairs(listing(map), change),
        lists(listing(changed(map, change)), changed(map, change)),
{
    let pairs = listing(map);
    let after = changed_pairs(pairs, change);
    let map_after = changed(map, change);
    assert forall|i: int, j: int| 0 <= i < j < after.len() implies text::text_before(
        (#[trigger] after[i]).0,
        (#[trigger] after[j]).0,
    ) by {
        assert(text::text_before(pairs[i].0, pairs[j].0));
    }
    lemma_ascending_distinct(pairs);
    lemma_ascending_distinct(after);
    assert forall|i: int| 0 <= i < after.len() implies map_after.contains_key(
        (#[trigger] after[i]).0,
    ) && map_after[after[i].0] == after[i].1 by {
        lemma_collected_at(pairs, i);
    }
    assert forall|key: Seq<char>| #[trigger] map_after.contains_key(key) implies exists|i: int|
        0 <= i < after.len() && (#[trigger] after[i]).0 == key by {
        lemma_collected_from(pairs, key);
        let i = choose|i: int| 0 <= i < pairs.len() && (#[trigger] pairs[i]).0 == key;
        assert(after[i].0 == key);
    }
    lemma_collected_is(after, map_after);
    lemma_is_listing(after);
}

/// Changing the values of a list changes those of the map it gives.
pub proof fn lemma_changed_collected<W, U>(
    pairs: Seq<(Seq<char>, W)>,
    change: spec_fn(Seq<char>, W) -> U,
)
    ensures
        collected(changed_pairs(pairs, change)) == changed(collected(pairs), change),
    decreases pairs.len(),
{
    let after = changed_pairs(pairs, change);
    if pairs.len() > 0 {
        lemma_changed_collected(pairs.drop_last(), change);
        assert(after.drop_last() =~= changed_pairs(pairs.drop_last(), change));
    }
    assert(collected(after) =~= changed(collected(pairs), change));
}

/// An entry as the text of its key and the view of its value.
pub open spec fn pair_view<T: View>(entry: (String, T)) -> (Seq<char>, T::V) {
    (entry.0@, entry.1@)
}

/// Entries as the texts of their keys and the views of their values.
pub open spec fn pair_views<T: View>(entries: Seq<(String, T)>) -> Seq<(Seq<char>, T::V)> {
    entries.map_values(|entry: (String, T)| pair_view(entry))
}

/// A map that keeps its entries in ascending order of their keys.
#[derive(PartialEq, Eq)]
pub struct OrderedMap<T: View> {
    entries: Vec<(String, T)>,
}

impl<T: View> View for OrderedMap<T> {
    type V = Map<Seq<char>, T::V>;

    closed spec fn view(&self) -> Map<Seq<char>, T::V> {
        collected(pair_views(self.entries@))
    }
}

impl<T: View> OrderedMap<T> {
    #[verifier::type_invariant]
    spec fn is_ordered(self) -> bool {
        ascending_keys(pair_views(self.entries@))
    }

    /// An empty map.
    pub fn new() -> (map: Self)
        ensures
            map@ == Map::<Seq<char>, T::V>::empty(),
    {
        let entries: Vec<(String, T)> = Vec::new();
        assert(pair_views(entries@) =~= seq![]);
        OrderedMap { entries }
    }

    /// The number of entries.
    pub fn len(&self) -> (count: usize)
        ensures
            count == listing(self@).len(),
            lists(listing(self@), self@),
    {
        proof {
            use_type_invariant(self);
            lemma_is_listing(pair_views(self.entries@));
        }
        self.entries.len()
    }

    /// Whether there is no entry.
    pub fn is_empty(&self) -> (empty: bool)
        ensures
            empty == self@.is_empty(),
    {
        let ghost pairs = pair_views(self.entries@);
        proof {
            use_type_invariant(self);
            lemma_ascending_distinct(pairs);
            if pairs.len() > 0 {
                lemma_collected_at(pairs, 0);
            } else {
                assert(collected(pairs) =~= Map::empty());
            }
        }
        self.entries.len() == 0
    }

    /// The key at a position of the ascending order.
    pub fn key_at(&self, position: usize) -> (key: &String)
        requires
            position < listing(self@).len(),
        ensures
            key@ == listing(self@)[position as int].0,
    {
        proof {
            use_type_invariant(self);
            lemma_is_listing(pair_views(self.entries@));
        }
        &self.entries[position].0
    }

    /// The value at a position of the ascending order of keys.
    pub fn value_at(&self, position: usize) -> (value: &T)
        requires
            position < listing(self@).len(),
        ensures
            value@ == listing(self@)[position as int].1,
    {
        proof {
            use_type_invariant(self);
            lemma_is_listing(pair_views(self.entries@));
        }
        &self.entries[position].1
    }

    /// The values in ascending order of their keys.
    pub fn into_values(self) -> (values: Vec<T>)
        ensures
            values@.map_values(|value: T| value@) == listing(self@).map_values(
                |pair: (Seq<char>, T::V)| pair.1,
            ),
            lists(listing(self@), self@),
    {
        proof {
            use_type_invariant(&self);
            lemma_is_listing(pair_views(self.entries@));
        }
        let mut values: Vec<T> = Vec::new();
        let entries = self.entries;
        for entry in iter: entries
            invariant
                values@ == iter.seq().take(iter.index() as int).map_values(
                    |entry: (String, T)| entry.1,
                ),
        {
            values.push(entry.1);
        }
        values
    }

    fn place(&self, key: &str) -> (position: usize)
        ensures
            is_place(pair_views(self.entries@), position as int, key@),
    {
        let ghost pairs = pair_views(self.entries@);
        proof {
            use_type_invariant(self);
        }
        let mut position: usize = 0;
        while position < self.entries.len() && text::is_before(
            self.entries[position].0.as_str(),
            key,
        )
            invariant
                position <= self.entries.len(),
                pairs == pair_views(self.entries@),
                forall|j: int|
                    0 <= j < position ==> text::text_before((#[trigger] pairs[j]).0, key@),
            decreases self.entries.len() - position,
        {
            assert(pairs[position as int].0 == self.entries[position as int].0@);
            position += 1;
        }
        proof {
            if position < pairs.len() {
                text::lemma_text_before_total(pairs[position as int].0, key@);
            }
        }
        position
    }

    /// The value under a key.
    pub fn get(&self, key: &str) -> (value: Option<&T>)
        ensures
            match value {
                Some(value) => self@.contains_key(key@) && self@[key@] == value@,
                None => !self@.contains_key(key@),
            },
    {
        let ghost pairs = pair_views(self.entries@);
        proof {
            use_type_invariant(self);
            lemma_ascending_distinct(pairs);
        }
        let position = self.place(key);
        if position < self.entries.len() && !text::is_before(
            key,
            self.entries[position].0.as_str(),
        ) {
            proof {
                assert(pairs[position as int].0 == self.entries[position as int].0@);
                lemma_collected_at(pairs, position as int);
            }
            Some(&self.entries[position].1)
        } else {
            proof {
                if position < pairs.len() {
                    assert(pairs[position as int].0 == self.entries[position as int].0@);
                    text::lemma_text_before_irreflexive(key@);
                }
                lemma_absent(pairs, position as int, key@);
            }
            None
        }
    }

    /// Enters a value under a key, in place of what stood there.
    pub fn insert(&mut self, key: String, value: T)
        ensures
            final(self)@ == old(self)@.insert(key@, value@),
    {
        let ghost pairs = pair_views(self.entries@);
        proof {
            use_type_invariant(&*self);
        }
        let position = self.place(key.as_str());
        let replaces = position < self.entries.len() && !text::is_before(
            key.as_str(),
            self.entries[position].0.as_str(),
        );
        proof {
            lemma_with_entry(pairs, position as int, key@, value@);
            if position < pairs.len() {
                assert(pairs[position as int].0 == self.entries[position as int].0@);
                text::lemma_text_before_irreflexive(key@);
            }
        }
        let ghost after = with_entry(pairs, position as int, key@, value@);
        let mut entries: Vec<(String, T)> = Vec::new();
        assert(pair_views(entries@) =~= seq![]);
        std::mem::swap(&mut entries, &mut self.entries);
        if replaces {
            entries.set(position, (key, value));
        } else {
            entries.insert(position, (key, value));
        }
        assert(pair_views(entries@) =~= after);
        self.entries = entries;
    }

    /// Takes out what stands under a key, and says whether there was anything.
    pub fn remove(&mut self, key: &str) -> (removed: bool)
        ensures
            removed == old(self)@.contains_key(key@),
            final(self)@ == old(self)@.remove(key@),
    {
        let ghost pairs = pair_views(self.entries@);
        proof {
            use_type_invariant(&*self);
            lemma_ascending_distinct(pairs);
        }
        let position = self.place(key);
        let found = position < self.entries.len() && !text::is_before(
            key,
            self.entries[position].0.as_str(),
        );
        if found {
            proof {
                assert(pairs[position as int].0 == self.entries[position as int].0@);
                lemma_collected_at(pairs, position as int);
                lemma_without_entry(pairs, position as int);
            }
            let mut entries: Vec<(String, T)> = Vec::new();
            assert(pair_views(entries@) =~= seq![]);
            std::mem::swap(&mut entries, &mut self.entries);
            entries.remove(position);
            assert(pair_views(entries@) =~= pairs.remove(position as int));
            self.entries = entries;
        } else {
            proof {
                if position < pairs.len() {
                    assert(pairs[position as int].0 == self.entries[position as int].0@);
                    text::lemma_text_before_irreflexive(key@);
                }
                lemma_absent(pairs, position as int, key@);
                assert(collected(pairs).remove(key@) =~= collected(pairs));
            }
        }
        found
    }
}

/// A map in ascending order has a listing.
pub proof fn lemma_ordered_listed<T: View>(map: OrderedMap<T>)
    ensures
        lists(listing(map@), map@),
{
    lemma_listed(pair_views(map.entries@));
}

impl Clone for OrderedMap<String> {
    fn clone(&self) -> (copy: Self)
        ensures
            copy@ == self@,
    {
        proof {
            use_type_invariant(self);
        }
        let mut entries: Vec<(String, String)> = Vec::new();
        let mut i: usize = 0;
        while i < self.entries.len()
            invariant
                i == entries.len(),
                i <= self.entries.len(),
                forall|j: int|
                    0 <= j < i ==> pair_view(#[trigger] entries[j]) == pair_view(self.entries[j]),
            decreases self.entries.len() - i,
        {
            let entry = &self.entries[i];
            entries.push((entry.0.clone(), entry.1.clone()));
            i += 1;
        }
        assert(pair_views(entries@) =~= pair_views(self.entries@));
        OrderedMap { entries }
    }
}

/// A map that keeps its entries in no particular order.
#[derive(Debug)]
pub struct UnorderedMap<T: View> {
    entries: Vec<(String, T)>,
}

impl<T: View> View for UnorderedMap<T> {
    type V = Map<Seq<char>, T::V>;

    open spec fn view(&self) -> Map<Seq<char>, T::V> {
        collected(self.pairs())
    }
}

impl<T: View> UnorderedMap<T> {
    /// The entries in the order in which they happen to be kept.
    pub closed spec fn pairs(&self) -> Seq<(Seq<char>, T::V)> {
        pair_views(self.entries@)
    }

    #[verifier::type_invariant]
    spec fn has_distinct_keys(self) -> bool {
        distinct_keys(pair_views(self.entries@))
    }

    /// An empty map.
    pub fn new() -> (map: Self)
        ensures
            map@ == Map::<Seq<char>, T::V>::empty(),
    {
        let entries: Vec<(String, T)> = Vec::new();
        assert(pair_views(entries@) =~= seq![]);
        UnorderedMap { entries }
    }

    /// The number of entries.
    pub fn len(&self) -> (count: usize)
        ensures
            count == self.pairs().len(),
            distinct_keys(self.pairs()),
    {
        proof {
            use_type_invariant(self);
        }
        self.entries.len()
    }

    /// Whether there is no entry.
    pub fn is_empty(&self) -> (empty: bool)
        ensures
            empty == self@.is_empty(),
    {
        proof {
            use_type_invariant(self);
            if self.entries@.len() > 0 {
                lemma_collected_at(self.pairs(), 0);
            } else {
                assert(self@ =~= Map::empty());
            }
        }
        self.entries.len() == 0
    }

    /// The key of an entry.
    pub fn key_at(&self, position: usize) -> (key: &String)
        requires
            position < self.pairs().len(),
        ensures
            key@ == self.pairs()[position as int].0,
    {
        &self.entries[position].0
    }

    /// The value of an entry.
    pub fn value_at(&self, position: usize) -> (value: &T)
        requires
            position < self.pairs().len(),
        ensures
            value@ == self.pairs()[position as int].1,
    {
        &self.entries[position].1
    }

    /// Takes some entry out; there is none to take out of an empty map.
    pub fn pop(&mut self) -> (entry: Option<(String, T)>)
        ensures
            match entry {
                Some((key, value)) => {
                    &&& old(self)@.contains_key(key@)
                    &&& old(self)@[key@] == value@
                    &&& final(self)@ == old(self)@.remove(key@)
                    &&& final(self).pairs().len() < old(self).pairs().len()
                },
                None => old(self)@.is_empty() && final(self)@ == old(self)@,
            },
    {
        let ghost pairs = self.pairs();
        proof {
            use_type_invariant(&*self);
            if pairs.len() > 0 {
                lemma_collected_at(pairs, pairs.len() - 1);
                lemma_distinct_last(pairs);
            } else {
                assert(self@ =~= Map::empty());
            }
        }
        let mut entries: Vec<(String, T)> = Vec::new();
        assert(pair_views(entries@) =~= seq![]);
        std::mem::swap(&mut entries, &mut self.entries);
        let entry = entries.pop();
        assert(entry is Some ==> pair_views(entries@) =~= pairs.drop_last());
        self.entries = entries;
        entry
    }

    /// Enters a value under a key, in place of what stood there.
    pub fn insert(&mut self, key: String, value: T)
        ensures
            final(self)@ == old(self)@.insert(key@, value@),
    {
        let ghost pairs = self.pairs();
        proof {
            use_type_invariant(&*self);
        }
        let mut entries: Vec<(String, T)> = Vec::new();
        assert(pair_views(entries@) =~= seq![]);
        std::mem::swap(&mut entries, &mut self.entries);
        let mut position: usize = 0;
        while position < entries.len() && entries[position].0 != key
            invariant
                position <= entries.len(),
                pairs == pair_views(entries@),
                forall|j: int| 0 <= j < position ==> (#[trigger] pairs[j]).0 != key@,
            decreases entries.len() - position,
        {
            assert(pairs[position as int].0 == entries[position as int].0@);
            position += 1;
        }
        proof {
            if position < pairs.len() {
                assert(pairs[position as int].0 == entries[position as int].0@);
                lemma_distinct_update(pairs, position as int, value@);
            } else {
                lemma_distinct_push(pairs, key@, value@);
            }
        }
        if position < entries.len() {
            entries.set(position, (key, value));
            assert(pair_views(entries@) =~= pairs.update(position as int, (key@, value@)));
        } else {
            entries.push((key, value));
            assert(pair_views(entries@) =~= pairs.push((key@, value@)));
        }
        self.entries = entries;
    }
}

/// Every value of a map is the view of a value that was entered.
pub proof fn lemma_value_of<T: View>(map: UnorderedMap<T>, key: Seq<char>) -> (value: T)
    requires
        map@.contains_key(key),
    ensures
        value@ == map@[key],
{
    let i = lemma_collected_value(map.pairs(), key);
    map.entries@[i].1
}

/// The order in which the entries of a map are kept does not matter: two lists of the same
/// entries give the same map.
pub proof fn law_entry_order_is_immaterial<W>(a: Seq<(Seq<char>, W)>, b: Seq<(Seq<char>, W)>)
    requires
        distinct_keys(a),
        distinct_keys(b),
        forall|pair: (Seq<char>, W)| a.contains(pair) <==> b.contains(pair),
    ensures
        collected(a) == collected(b),
{
    assert forall|i: int| 0 <= i < a.len() implies collected(b).contains_key((#[trigger] a[i]).0)
        && collected(b)[a[i].0] == a[i].1 by {
        assert(a.contains(a[i]));
        let j = choose|j: int| 0 <= j < b.len() && b[j] == a[i];
        lemma_collected_at(b, j);
    }
    assert forall|key: Seq<char>| #[trigger] collected(b).contains_key(key) implies exists|i: int|
        0 <= i < a.len() && (#[trigger] a[i]).0 == key by {
        let j = lemma_collected_value(b, key);
        assert(b.contains(b[j]));
        let i = choose|i: int| 0 <= i < a.len() && a[i] == b[j];
        assert(a[i].0 == key);
    }
    lemma_collected_is(a, collected(b));
}

proof fn lemma_distinct_last<W>(pairs: Seq<(Seq<char>, W)>)
    requires
        distinct_keys(pairs),
        pairs.len() > 0,
    ensures
        distinct_keys(pairs.drop_last()),
        collected(pairs.drop_last()) == collected(pairs).remove(pairs.last().0),
{
    let fewer = pairs.drop_last();
    let key = pairs.last().0;
    assert forall|i: int, j: int| 0 <= i < j < fewer.len() implies (#[trigger] fewer[i]).0 != (
    #[trigger] fewer[j]).0 by {
        assert(pairs[i].0 != pairs[j].0);
    }
    if collected(fewer).contains_key(key) {
        lemma_collected_from(fewer, key);
        let i = choose|i: int| 0 <= i < fewer.len() && (#[trigger] fewer[i]).0 == key;
        assert(pairs[i].0 != pairs[pairs.len() - 1].0);
    }
    assert(collected(fewer) =~= collected(pairs).remove(key));
}

proof fn lemma_distinct_push<W>(pairs: Seq<(Seq<char>, W)>, key: Seq<char>, value: W)
    requires
        distinct_keys(pairs),
        forall|j: int| 0 <= j < pairs.len() ==> (#[trigger] pairs[j]).0 != key,
    ensures
        distinct_keys(pairs.push((key, value))),
        collected(pairs.push((key, value))) == collected(pairs).insert(key, value),
{
    let more = pairs.push((key, value));
    assert forall|i: int, j: int| 0 <= i < j < more.len() implies (#[trigger] more[i]).0 != (
    #[trigger] more[j]).0 by {
        assert(more[i] == pairs[i]);
        if j < pairs.len() {
            assert(more[j] == pairs[j]);
        }
    }
    assert(more.drop_last() =~= pairs);
}

proof fn lemma_distinct_update<W>(pairs: Seq<(Seq<char>, W)>, position: int, value: W)
    requires
        distinct_keys(pairs),
        0 <= position < pairs.len(),
    ensures
        distinct_keys(pairs.update(position, (pairs[position].0, value))),
        collected(pairs.update(position, (pairs[position].0, value))) == collected(pairs).insert(
            pairs[position].0,
            value,
        ),
{
    let key = pairs[position].0;
    let after = pairs.update(position, (key, value));
    let map = collected(pairs).insert(key, value);
    assert forall|i: int, j: int| 0 <= i < j < after.len() implies (#[trigger] after[i]).0 != (
    #[trigger] after[j]).0 by {
        assert(pairs[i].0 != pairs[j].0);
    }
    assert forall|i: int| 0 <= i < after.len() implies map.contains_key((#[trigger] after[i]).0)
        && map[after[i].0] == after[i].1 by {
        if i != position {
            lemma_collected_at(pairs, i);
            assert(after[i].0 != after[position].0);
        }
    }
    assert forall|k: Seq<char>| #[trigger] map.contains_key(k) implies exists|i: int|
        0 <= i < after.len() && (#[trigger] after[i]).0 == k by {
        if k == key {
            assert(after[position].0 == k);
        } else {
            lemma_collected_from(pairs, k);
            let i = choose|i: int| 0 <= i < pairs.len() && (#[trigger] pairs[i]).0 == k;
            assert(after[i].0 == k);
        }
    }
    lemma_collected_is(after, map);
}

} // verus!
