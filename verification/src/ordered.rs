//! Maps and lists that are kept in ascending order of text.

use crate::text::{place, text_before, text_order_is_strict_and_total, texts, Place};
use vstd::prelude::*;

verus! {

/// Every key stands before the keys that follow it, so no key occurs twice.
pub open spec fn keys_ascend<V>(pairs: Seq<(Seq<char>, V)>) -> bool {
    forall|i: int, j: int|
        0 <= i < j < pairs.len() ==> text_before(#[trigger] pairs[i].0, #[trigger] pairs[j].0)
}

/// Some pair has the key.
pub open spec fn has_key<V>(pairs: Seq<(Seq<char>, V)>, key: Seq<char>) -> bool {
    exists|i: int| 0 <= i < pairs.len() && (#[trigger] pairs[i]).0 == key
}

/// The map that pairs with distinct keys write down.
pub open spec fn pairs_map<V>(pairs: Seq<(Seq<char>, V)>) -> Map<Seq<char>, V> {
    Map::new(
        |key: Seq<char>| has_key(pairs, key),
        |key: Seq<char>|
            pairs[choose|i: int| 0 <= i < pairs.len() && (#[trigger] pairs[i]).0 == key].1,
    )
}

/// In pairs whose keys ascend, the value of a key is the one that stands beside it.
pub proof fn pairs_map_looks_up<V>(pairs: Seq<(Seq<char>, V)>, i: int)
    requires
        keys_ascend(pairs),
        0 <= i < pairs.len(),
    ensures
        pairs_map(pairs).dom().contains(pairs[i].0),
        pairs_map(pairs)[pairs[i].0] == pairs[i].1,
{
    let key = pairs[i].0;
    assert(has_key(pairs, key));
    let k = choose|k: int| 0 <= k < pairs.len() && (#[trigger] pairs[k]).0 == key;
    text_order_is_strict_and_total(key, key, key);
    if k < i {
        assert(text_before(pairs[k].0, pairs[i].0));
    } else if i < k {
        assert(text_before(pairs[i].0, pairs[k].0));
    }
}

/// A map from text keys, kept in ascending order of its keys.
#[derive(Debug, PartialEq)]
pub struct OrderedMap<V> {
    entries: Vec<(String, V)>,
}

impl<V> View for OrderedMap<V> {
    type V = Map<Seq<char>, V>;

    open spec fn view(&self) -> Map<Seq<char>, V> {
        pairs_map(self.pairs())
    }
}

/// The keys and values of a sequence of entries.
pub open spec fn entry_pairs<V>(entries: Seq<(String, V)>) -> Seq<(Seq<char>, V)> {
    entries.map_values(|e: (String, V)| (e.0@, e.1))
}

impl<V> OrderedMap<V> {
    /// The keys with their values, in ascending order of the keys.
    pub closed spec fn pairs(&self) -> Seq<(Seq<char>, V)> {
        entry_pairs(self.entries@)
    }

    /// The keys, in ascending order.
    pub open spec fn key_list(&self) -> Seq<Seq<char>> {
        self.pairs().map_values(|p: (Seq<char>, V)| p.0)
    }

    #[verifier::type_invariant]
    spec fn ascending(self) -> bool {
        keys_ascend(self.pairs())
    }

    /// The empty map.
    pub fn new() -> (r: Self)
        ensures
            r@ == Map::<Seq<char>, V>::empty(),
            r.pairs() == Seq::<(Seq<char>, V)>::empty(),
    {
        let r = OrderedMap { entries: Vec::new() };
        assert(r.pairs() =~= Seq::<(Seq<char>, V)>::empty());
        assert(r@ =~= Map::<Seq<char>, V>::empty());
        r
    }

    /// The number of keys.
    pub fn len(&self) -> (r: usize)
        ensures
            r == self.pairs().len(),
            r == self@.dom().len(),
            self@.dom().finite(),
    {
        proof {
            use_type_invariant(self);
            lemma_key_count(self.pairs());
        }
        self.entries.len()
    }

    /// Whether the map has no key.
    pub fn is_empty(&self) -> (r: bool)
        ensures
            r == (self@ == Map::<Seq<char>, V>::empty()),
            r == (self.pairs().len() == 0),
    {
        let r = self.entries.is_empty();
        proof {
            if self.pairs().len() == 0 {
                assert(self@ =~= Map::<Seq<char>, V>::empty());
            } else {
                assert(has_key(self.pairs(), self.pairs()[0].0));
                assert(self@.dom().contains(self.pairs()[0].0));
            }
        }
        r
    }

    /// The entries, in ascending order of their keys.
    pub fn entries(&self) -> (r: &Vec<(String, V)>)
        ensures
            entry_pairs(r@) == self.pairs(),
            keys_ascend(self.pairs()),
    {
        proof {
            use_type_invariant(self);
        }
        &self.entries
    }

    /// The position of a key, or the position at which it belongs.
    fn position(&self, key: &str) -> (r: (bool, usize))
        ensures
            r.1 <= self.pairs().len(),
            r.0 ==> r.1 < self.pairs().len() && self.pairs()[r.1 as int].0 == key@,
            !r.0 ==> !has_key(self.pairs(), key@),
            forall|i: int| 0 <= i < r.1 ==> text_before(#[trigger] self.pairs()[i].0, key@),
            !r.0 ==> forall|i: int|
                r.1 <= i < self.pairs().len() ==> text_before(key@, #[trigger] self.pairs()[i].0),
    {
        proof {
            use_type_invariant(self);
        }
        let ghost pairs = self.pairs();
        let mut low: usize = 0;
        let mut high: usize = self.entries.len();
        while low < high
            invariant
                pairs == self.pairs(),
                keys_ascend(pairs),
                low <= high <= pairs.len(),
                pairs.len() == self.entries@.len(),
                forall|i: int| 0 <= i < low ==> text_before(#[trigger] pairs[i].0, key@),
                forall|i: int| high <= i < pairs.len() ==> text_before(key@, #[trigger] pairs[i].0),
            decreases high - low,
        {
            let mid: usize = low + (high - low) / 2;
            assert(pairs[mid as int].0 == self.entries@[mid as int].0@);
            match place(self.entries[mid].0.as_str(), key) {
                Place::Same => {
                    assert forall|i: int| 0 <= i < mid implies text_before(
                        #[trigger] pairs[i].0,
                        key@,
                    ) by {
                        assert(text_before(pairs[i].0, pairs[mid as int].0));
                    }
                    return (true, mid);
                },
                Place::Before => {
                    assert forall|i: int| 0 <= i < mid + 1 implies text_before(
                        #[trigger] pairs[i].0,
                        key@,
                    ) by {
                        if i < mid {
                            assert(text_before(pairs[i].0, pairs[mid as int].0));
                            text_order_is_strict_and_total(pairs[i].0, pairs[mid as int].0, key@);
                        }
                    }
                    low = mid + 1;
                },
                Place::After => {
                    assert forall|i: int| mid <= i < pairs.len() implies text_before(
                        key@,
                        #[trigger] pairs[i].0,
                    ) by {
                        if mid < i {
                            assert(text_before(pairs[mid as int].0, pairs[i].0));
                            text_order_is_strict_and_total(key@, pairs[mid as int].0, pairs[i].0);
                        }
                    }
                    high = mid;
                },
            }
        }
        proof {
            assert forall|i: int| 0 <= i < pairs.len() implies (#[trigger] pairs[i]).0 != key@ by {
                text_order_is_strict_and_total(key@, key@, key@);
                if i < low {
                    assert(text_before(pairs[i].0, key@));
                } else {
                    assert(text_before(key@, pairs[i].0));
                }
            }
        }
        (false, low)
    }

    /// The value of a key.
    pub fn get(&self, key: &str) -> (r: Option<&V>)
        ensures
            r is Some <==> self@.dom().contains(key@),
            r matches Some(v) ==> *v == self@[key@],
    {
        proof {
            use_type_invariant(self);
        }
        let (found, at) = self.position(key);
        if found {
            proof {
                pairs_map_looks_up(self.pairs(), at as int);
            }
            Some(&self.entries[at].1)
        } else {
            None
        }
    }

    /// Gives a key a value, in place of any that it had.
    pub fn insert(&mut self, key: String, value: V)
        ensures
            final(self)@ == old(self)@.insert(key@, value),
    {
        proof {
            use_type_invariant(&*self);
        }
        let (found, at) = self.position(key.as_str());
        let ghost before = self.pairs();
        let ghost before_map = self@;
        let mut entries: Vec<(String, V)> = Vec::new();
        std::mem::swap(&mut entries, &mut self.entries);
        if found {
            entries[at] = (key, value);
            proof {
                let after = entry_pairs(entries@);
                assert(after =~= before.update(at as int, (key@, value)));
                assert forall|i: int, j: int| 0 <= i < j < after.len() implies text_before(
                    #[trigger] after[i].0,
                    #[trigger] after[j].0,
                ) by {
                    assert(text_before(before[i].0, before[j].0));
                }
                lemma_replace_in_map(before, at as int, key@, value);
            }
        } else {
            entries.insert(at, (key, value));
            proof {
                let after = entry_pairs(entries@);
                assert(after =~= before.insert(at as int, (key@, value)));
                lemma_insert_into_map(before, at as int, key@, value);
            }
        }
        self.entries = entries;
    }

    /// The keys, in ascending order.
    pub fn keys(&self) -> (r: Vec<String>)
        ensures
            texts(r@) == self.key_list(),
            strictly_ascending(self.key_list()),
            self.key_list().to_set() == self@.dom(),
    {
        proof {
            use_type_invariant(self);
        }
        let mut out: Vec<String> = Vec::new();
        let mut i: usize = 0;
        while i < self.entries.len()
            invariant
                i <= self.entries@.len(),
                texts(out@) == self.key_list().take(i as int),
                self.key_list().len() == self.entries@.len(),
                forall|j: int|
                    0 <= j < self.entries@.len() ==> #[trigger] self.key_list()[j]
                        == self.entries@[j].0@,
            decreases self.entries@.len() - i,
        {
            let ghost before = out@;
            let key = self.entries[i].0.clone();
            out.push(key);
            proof {
                assert(texts(out@) =~= texts(before).push(key@));
                assert(self.key_list().take(i + 1) =~= self.key_list().take(i as int).push(
                    self.key_list()[i as int],
                ));
            }
            i += 1;
        }
        proof {
            let keys = self.key_list();
            let pairs = self.pairs();
            assert(keys.take(i as int) =~= keys);
            assert forall|i: int, j: int| 0 <= i < j < keys.len() implies text_before(
                #[trigger] keys[i],
                #[trigger] keys[j],
            ) by {
                assert(text_before(pairs[i].0, pairs[j].0));
            }
            assert forall|k: Seq<char>| keys.to_set().contains(k) == self@.dom().contains(k) by {
                if self@.dom().contains(k) {
                    let i = choose|i: int| 0 <= i < pairs.len() && (#[trigger] pairs[i]).0 == k;
                    assert(keys[i] == k);
                }
                if keys.contains(k) {
                    let i = choose|i: int| 0 <= i < keys.len() && keys[i] == k;
                    assert(pairs[i].0 == k);
                }
            }
            assert(keys.to_set() =~= self@.dom());
        }
        out
    }
}

impl OrderedMap<Vec<String>> {
    /// Adds an item to the end of a key's list; a new key starts with an empty list.
    pub fn append_to(&mut self, key: String, item: String)
        ensures
            final(self)@.dom() == old(self)@.dom().insert(key@),
            texts(final(self)@[key@]@) == (if old(self)@.dom().contains(key@) {
                texts(old(self)@[key@]@)
            } else {
                Seq::empty()
            }).push(item@),
            forall|other: Seq<char>|
                other != key@ && old(self)@.dom().contains(other) ==> #[trigger] final(self)@[other]
                    == old(self)@[other],
    {
        proof {
            use_type_invariant(&*self);
        }
        let (found, at) = self.position(key.as_str());
        if found {
            let ghost before = self.pairs();
            proof {
                pairs_map_looks_up(before, at as int);
            }
            let mut entries: Vec<(String, Vec<String>)> = Vec::new();
            std::mem::swap(&mut entries, &mut self.entries);
            let ghost list = entries@[at as int].1;
            entries[at].1.push(item);
            proof {
                let longer = entries@[at as int].1;
                let after = entry_pairs(entries@);
                assert(after =~= before.update(at as int, (key@, longer)));
                lemma_replace_in_map(before, at as int, key@, longer);
                assert(texts(longer@) =~= texts(list@).push(item@));
                assert(pairs_map(before).dom().insert(key@) =~= pairs_map(after).dom());
            }
            self.entries = entries;
        } else {
            let mut list: Vec<String> = Vec::new();
            list.push(item);
            assert(texts(list@) =~= Seq::<Seq<char>>::empty().push(item@));
            self.insert(key, list);
            assert(self@.dom() =~= old(self)@.dom().insert(key@));
        }
    }
}

proof fn lemma_key_count<V>(pairs: Seq<(Seq<char>, V)>)
    requires
        keys_ascend(pairs),
    ensures
        pairs_map(pairs).dom().finite(),
        pairs_map(pairs).dom().len() == pairs.len(),
    decreases pairs.len(),
{
    if pairs.len() == 0 {
        assert(pairs_map(pairs).dom() =~= Set::<Seq<char>>::empty());
    } else {
        let shorter = pairs.drop_last();
        let key = pairs.last().0;
        lemma_key_count(shorter);
        assert forall|k: Seq<char>|
            #![trigger pairs_map(pairs).dom().contains(k)]
            pairs_map(pairs).dom().contains(k) == pairs_map(shorter).dom().insert(key).contains(
                k,
            ) by {
            if has_key(pairs, k) {
                let i = choose|i: int| 0 <= i < pairs.len() && (#[trigger] pairs[i]).0 == k;
                if i < shorter.len() {
                    assert(shorter[i].0 == k);
                }
            }
            if has_key(shorter, k) {
                let i = choose|i: int| 0 <= i < shorter.len() && (#[trigger] shorter[i]).0 == k;
                assert(pairs[i].0 == k);
            }
            assert(pairs[pairs.len() - 1].0 == key);
        }
        assert(pairs_map(pairs).dom() =~= pairs_map(shorter).dom().insert(key));
        if has_key(shorter, key) {
            let i = choose|i: int| 0 <= i < shorter.len() && (#[trigger] shorter[i]).0 == key;
            assert(text_before(pairs[i].0, pairs[pairs.len() - 1].0));
            text_order_is_strict_and_total(key, key, key);
        }
    }
}

proof fn lemma_replace_in_map<V>(pairs: Seq<(Seq<char>, V)>, at: int, key: Seq<char>, value: V)
    requires
        keys_ascend(pairs),
        0 <= at < pairs.len(),
        pairs[at].0 == key,
    ensures
        keys_ascend(pairs.update(at, (key, value))),
        pairs_map(pairs.update(at, (key, value))) == pairs_map(pairs).insert(key, value),
{
    let after = pairs.update(at, (key, value));
    assert forall|i: int, j: int| 0 <= i < j < after.len() implies text_before(
        #[trigger] after[i].0,
        #[trigger] after[j].0,
    ) by {
        assert(text_before(pairs[i].0, pairs[j].0));
    }
    let left = pairs_map(after);
    let right = pairs_map(pairs).insert(key, value);
    assert forall|k: Seq<char>|
        #![trigger left.dom().contains(k)]
        left.dom().contains(k) == right.dom().contains(k) && (left.dom().contains(k) ==> left[k]
            == right[k]) by {
        if has_key(after, k) {
            let i = choose|i: int| 0 <= i < after.len() && (#[trigger] after[i]).0 == k;
            assert(pairs[i].0 == k);
            pairs_map_looks_up(after, i);
            pairs_map_looks_up(pairs, i);
            if k == key {
                pairs_map_looks_up(after, at);
            }
        }
        if has_key(pairs, k) {
            let i = choose|i: int| 0 <= i < pairs.len() && (#[trigger] pairs[i]).0 == k;
            assert(after[i].0 == k);
        }
        assert(after[at].0 == key);
    }
    assert(left =~= right);
}

proof fn lemma_insert_into_map<V>(pairs: Seq<(Seq<char>, V)>, at: int, key: Seq<char>, value: V)
    requires
        keys_ascend(pairs),
        0 <= at <= pairs.len(),
        forall|i: int| 0 <= i < at ==> text_before(#[trigger] pairs[i].0, key),
        forall|i: int| at <= i < pairs.len() ==> text_before(key, #[trigger] pairs[i].0),
    ensures
        keys_ascend(pairs.insert(at, (key, value))),
        pairs_map(pairs.insert(at, (key, value))) == pairs_map(pairs).insert(key, value),
{
    let after = pairs.insert(at, (key, value));
    assert forall|i: int, j: int| 0 <= i < j < after.len() implies text_before(
        #[trigger] after[i].0,
        #[trigger] after[j].0,
    ) by {
        let x = if i < at { i } else { i - 1 };
        let y = if j < at { j } else { j - 1 };
        if i != at {
            assert(after[i] == pairs[x]);
        }
        if j != at {
            assert(after[j] == pairs[y]);
        }
        if i != at && j != at {
            assert(text_before(pairs[x].0, pairs[y].0));
        }
    }
    let left = pairs_map(after);
    let right = pairs_map(pairs).insert(key, value);
    assert forall|k: Seq<char>|
        #![trigger left.dom().contains(k)]
        left.dom().contains(k) == right.dom().contains(k) && (left.dom().contains(k) ==> left[k]
            == right[k]) by {
        assert(after[at].0 == key);
        if has_key(after, k) {
            let i = choose|i: int| 0 <= i < after.len() && (#[trigger] after[i]).0 == k;
            pairs_map_looks_up(after, i);
            if k == key {
                pairs_map_looks_up(after, at);
            } else {
                let x = if i < at { i } else { i - 1 };
                assert(after[i] == pairs[x]);
                pairs_map_looks_up(pairs, x);
            }
        }
        if has_key(pairs, k) {
            let i = choose|i: int| 0 <= i < pairs.len() && (#[trigger] pairs[i]).0 == k;
            let x = if i < at { i } else { i + 1 };
            assert(after[x] == pairs[i]);
        }
    }
    assert(left =~= right);
}

/// Every item stands before the items that follow it.
pub open spec fn strictly_ascending(items: Seq<Seq<char>>) -> bool {
    forall|i: int, j: int|
        0 <= i < j < items.len() ==> text_before(#[trigger] items[i], #[trigger] items[j])
}

/// An ascending list with one more member at its place; the list itself where it has that member.
pub open spec fn with_member(list: Seq<Seq<char>>, item: Seq<char>) -> Seq<Seq<char>>
    decreases list.len(),
{
    if list.len() == 0 {
        seq![item]
    } else if list.last() == item {
        list
    } else if text_before(list.last(), item) {
        list.push(item)
    } else {
        with_member(list.drop_last(), item).push(list.last())
    }
}

/// The items in ascending order, each once.
pub open spec fn ascending_distinct(items: Seq<Seq<char>>) -> Seq<Seq<char>>
    decreases items.len(),
{
    if items.len() == 0 {
        Seq::empty()
    } else {
        with_member(ascending_distinct(items.drop_last()), items.last())
    }
}

proof fn lemma_with_member(list: Seq<Seq<char>>, item: Seq<char>)
    requires
        strictly_ascending(list),
    ensures
        strictly_ascending(with_member(list, item)),
        with_member(list, item).to_set() == list.to_set().insert(item),
    decreases list.len(),
{
    let r = with_member(list, item);
    if list.len() == 0 {
        assert(r.to_set() =~= list.to_set().insert(item)) by {
            assert(r[0] == item);
        }
    } else if list.last() == item {
        assert(list[list.len() - 1] == item);
        assert(r.to_set() =~= list.to_set().insert(item));
    } else {
        let shorter = list.drop_last();
        let top = list.last();
        text_order_is_strict_and_total(top, item, top);
        if text_before(top, item) {
            assert forall|i: int, j: int| 0 <= i < j < r.len() implies text_before(
                #[trigger] r[i],
                #[trigger] r[j],
            ) by {
                if j == list.len() && i < list.len() - 1 {
                    assert(text_before(list[i], list[list.len() - 1]));
                    text_order_is_strict_and_total(list[i], top, item);
                } else if j < list.len() {
                    assert(text_before(list[i], list[j]));
                }
            }
            lemma_push_to_set(list, item);
        } else {
            assert forall|i: int, j: int| 0 <= i < j < shorter.len() implies text_before(
                #[trigger] shorter[i],
                #[trigger] shorter[j],
            ) by {
                assert(text_before(list[i], list[j]));
            }
            lemma_with_member(shorter, item);
            let inner = with_member(shorter, item);
            assert forall|i: int, j: int| 0 <= i < j < r.len() implies text_before(
                #[trigger] r[i],
                #[trigger] r[j],
            ) by {
                if j == inner.len() {
                    assert(inner.to_set().contains(inner[i]));
                    if inner[i] != item {
                        assert(shorter.contains(inner[i]));
                        let k = choose|k: int| 0 <= k < shorter.len() && shorter[k] == inner[i];
                        assert(text_before(list[k], list[list.len() - 1]));
                    }
                } else {
                    assert(text_before(inner[i], inner[j]));
                }
            }
            lemma_push_to_set(inner, top);
            assert(list =~= shorter.push(top));
            lemma_push_to_set(shorter, top);
            assert(r.to_set() =~= list.to_set().insert(item));
        }
    }
}

proof fn lemma_push_to_set(list: Seq<Seq<char>>, item: Seq<char>)
    ensures
        list.push(item).to_set() == list.to_set().insert(item),
{
    let longer = list.push(item);
    assert forall|x: Seq<char>|
        longer.to_set().contains(x) == list.to_set().insert(item).contains(x) by {
        if longer.contains(x) {
            let k = choose|k: int| 0 <= k < longer.len() && longer[k] == x;
            if k < list.len() {
                assert(list[k] == x);
            }
        }
        if list.contains(x) {
            let k = choose|k: int| 0 <= k < list.len() && list[k] == x;
            assert(longer[k] == x);
        }
        assert(longer[list.len() as int] == item);
    }
    assert(longer.to_set() =~= list.to_set().insert(item));
}

/// The ascending list of some items has the same members as they, ascends, and is the only such
/// list.
pub proof fn ascending_distinct_lists_the_members(items: Seq<Seq<char>>)
    ensures
        strictly_ascending(ascending_distinct(items)),
        ascending_distinct(items).to_set() == items.to_set(),
        forall|other: Seq<Seq<char>>|
            #![trigger strictly_ascending(other)]
            strictly_ascending(other) && other.to_set() == items.to_set() ==> other
                == ascending_distinct(items),
    decreases items.len(),
{
    if items.len() == 0 {
        assert(ascending_distinct(items).to_set() =~= items.to_set());
    } else {
        let shorter = items.drop_last();
        ascending_distinct_lists_the_members(shorter);
        lemma_with_member(ascending_distinct(shorter), items.last());
        assert(items =~= shorter.push(items.last()));
        lemma_push_to_set(shorter, items.last());
    }
    assert forall|other: Seq<Seq<char>>|
        #![trigger strictly_ascending(other)]
        strictly_ascending(other) && other.to_set() == items.to_set() implies other
        == ascending_distinct(items) by {
        lemma_one_ascending_list(other, ascending_distinct(items));
    }
}

proof fn lemma_one_ascending_list(a: Seq<Seq<char>>, b: Seq<Seq<char>>)
    requires
        strictly_ascending(a),
        strictly_ascending(b),
        a.to_set() == b.to_set(),
    ensures
        a == b,
    decreases a.len(),
{
    if a.len() == 0 {
        if b.len() > 0 {
            assert(b.to_set().contains(b[0]));
            assert(a.contains(b[0]));
        }
        assert(a =~= b);
    } else {
        assert(a.to_set().contains(a[0]));
        assert(b.contains(a[0]));
        let x = a.last();
        let y = b.last();
        text_order_is_strict_and_total(x, y, x);
        assert(a[a.len() - 1] == x);
        assert(a.to_set().contains(x));
        assert(b.to_set().contains(x));
        let k = choose|k: int| 0 <= k < b.len() && b[k] == x;
        if k < b.len() - 1 {
            assert(text_before(b[k], b[b.len() - 1]));
        }
        assert(b[b.len() - 1] == y);
        assert(b.to_set().contains(y));
        assert(a.to_set().contains(y));
        let m = choose|m: int| 0 <= m < a.len() && a[m] == y;
        if m < a.len() - 1 {
            assert(text_before(a[m], a[a.len() - 1]));
        }
        assert(x == y);
        let a1 = a.drop_last();
        let b1 = b.drop_last();
        assert forall|i: int, j: int| 0 <= i < j < a1.len() implies text_before(
            #[trigger] a1[i],
            #[trigger] a1[j],
        ) by {
            assert(text_before(a[i], a[j]));
        }
        assert forall|i: int, j: int| 0 <= i < j < b1.len() implies text_before(
            #[trigger] b1[i],
            #[trigger] b1[j],
        ) by {
            assert(text_before(b[i], b[j]));
        }
        lemma_drop_last_to_set(a);
        lemma_drop_last_to_set(b);
        lemma_one_ascending_list(a1, b1);
        assert(a =~= a1.push(x));
        assert(b =~= b1.push(y));
    }
}

proof fn lemma_drop_last_to_set(a: Seq<Seq<char>>)
    requires
        strictly_ascending(a),
        a.len() > 0,
    ensures
        a.drop_last().to_set() == a.to_set().remove(a.last()),
{
    let a1 = a.drop_last();
    assert forall|x: Seq<char>| a1.to_set().contains(x) == a.to_set().remove(a.last()).contains(x) by {
        if a1.contains(x) {
            let k = choose|k: int| 0 <= k < a1.len() && a1[k] == x;
            assert(a[k] == x);
            assert(text_before(a[k], a[a.len() - 1]));
            text_order_is_strict_and_total(x, x, x);
        }
        if a.contains(x) && x != a.last() {
            let k = choose|k: int| 0 <= k < a.len() && a[k] == x;
            assert(a1[k] == x);
        }
    }
    assert(a1.to_set() =~= a.to_set().remove(a.last()));
}

/// Sorts the items in ascending order and drops repeated ones.
pub fn sort_distinct(items: &Vec<String>) -> (r: Vec<String>)
    ensures
        texts(r@) == ascending_distinct(texts(items@)),
{
    let mut members: OrderedMap<()> = OrderedMap::new();
    let mut i: usize = 0;
    assert(members@.dom() =~= texts(items@).take(0).to_set());
    while i < items.len()
        invariant
            i <= items@.len(),
            members@.dom() == texts(items@).take(i as int).to_set(),
        decreases items@.len() - i,
    {
        let item = items[i].clone();
        let ghost before = members@.dom();
        members.insert(item, ());
        proof {
            let all = texts(items@);
            assert(all.take(i + 1) =~= all.take(i as int).push(all[i as int]));
            lemma_push_to_set(all.take(i as int), all[i as int]);
            assert(members@.dom() =~= before.insert(item@));
        }
        i += 1;
    }
    let r = members.keys();
    proof {
        assert(texts(items@).take(i as int) =~= texts(items@));
        ascending_distinct_lists_the_members(texts(items@));
    }
    r
}

/// A map can be written down in ascending order of its keys in one way only.
pub proof fn ascending_pairs_are_one_per_map<V>(a: Seq<(Seq<char>, V)>, b: Seq<(Seq<char>, V)>)
    requires
        keys_ascend(a),
        keys_ascend(b),
        pairs_map(a) == pairs_map(b),
    ensures
        a == b,
{
    let keys_a = a.map_values(|p: (Seq<char>, V)| p.0);
    let keys_b = b.map_values(|p: (Seq<char>, V)| p.0);
    assert forall|key: Seq<char>| keys_a.contains(key) == keys_b.contains(key) by {
        if keys_a.contains(key) {
            let i = choose|i: int| 0 <= i < keys_a.len() && keys_a[i] == key;
            pairs_map_looks_up(a, i);
            let j = choose|j: int| 0 <= j < b.len() && (#[trigger] b[j]).0 == key;
            assert(has_key(b, key));
            assert(keys_b[j] == key);
        }
        if keys_b.contains(key) {
            let i = choose|i: int| 0 <= i < keys_b.len() && keys_b[i] == key;
            pairs_map_looks_up(b, i);
            assert(has_key(a, key));
            let j = choose|j: int| 0 <= j < a.len() && (#[trigger] a[j]).0 == key;
            assert(keys_a[j] == key);
        }
    }
    assert(keys_a.to_set() =~= keys_b.to_set());
    lemma_one_ascending_list(keys_a, keys_b);
    assert forall|i: int| 0 <= i < a.len() implies a[i] == b[i] by {
        assert(keys_a[i] == keys_b[i]);
        pairs_map_looks_up(a, i);
        pairs_map_looks_up(b, i);
    }
    assert(a.len() == keys_a.len() && b.len() == keys_b.len());
    assert(a =~= b);
}

/// Sorting lists every item once, and an item only behind those that stand before it.
pub proof fn sorting_lists_each_item_once(items: Seq<Seq<char>>)
    ensures
        forall|i: int, j: int|
            0 <= i < j < ascending_distinct(items).len() ==> text_before(
                #[trigger] ascending_distinct(items)[i],
                #[trigger] ascending_distinct(items)[j],
            ),
        forall|item: Seq<char>|
            #[trigger] ascending_distinct(items).contains(item) <==> items.contains(item),
{
    ascending_distinct_lists_the_members(items);
    assert forall|item: Seq<char>|
        #[trigger] ascending_distinct(items).contains(item) == items.contains(item) by {
        assert(ascending_distinct(items).to_set().contains(item) == items.to_set().contains(item));
    }
}

/// The pairs of some entries are those of the entries, one by one. Where their keys ascend, the map
/// that they write down has exactly their keys, each with its value.
pub proof fn a_map_holds_what_its_entries_say<V>(entries: Seq<(String, V)>, key: Seq<char>)
    requires
        forall|i: int, j: int|
            0 <= i < j < entries.len() ==> text_before(
                (#[trigger] entries[i]).0@,
                (#[trigger] entries[j]).0@,
            ),
    ensures
        entry_pairs(entries).len() == entries.len(),
        forall|i: int|
            0 <= i < entries.len() ==> #[trigger] entry_pairs(entries)[i] == (
                entries[i].0@,
                entries[i].1,
            ),
        keys_ascend(entry_pairs(entries)),
        pairs_map(entry_pairs(entries)).dom().contains(key) <==> exists|i: int|
            0 <= i < entries.len() && (#[trigger] entries[i]).0@ == key,
        forall|i: int|
            0 <= i < entries.len() ==> pairs_map(entry_pairs(entries))[(
            #[trigger] entries[i]).0@] == entries[i].1,
{
    let pairs = entry_pairs(entries);
    assert forall|i: int, j: int| 0 <= i < j < pairs.len() implies text_before(
        #[trigger] pairs[i].0,
        #[trigger] pairs[j].0,
    ) by {
        assert(text_before(entries[i].0@, entries[j].0@));
    }
    assert forall|i: int| 0 <= i < entries.len() implies pairs_map(pairs)[(
    #[trigger] entries[i]).0@] == entries[i].1 by {
        pairs_map_looks_up(pairs, i);
    }
    if has_key(pairs, key) {
        let i = choose|i: int| 0 <= i < pairs.len() && (#[trigger] pairs[i]).0 == key;
        assert(entries[i].0@ == key);
    }
    if exists|i: int| 0 <= i < entries.len() && (#[trigger] entries[i]).0@ == key {
        let i = choose|i: int| 0 <= i < entries.len() && (#[trigger] entries[i]).0@ == key;
        assert(pairs[i].0 == key);
    }
}

} // verus!
