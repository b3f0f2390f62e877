//! Header fields: header names with their values, in ascending order of the names.

use crate::ordered::{entry_pairs, has_key, keys_ascend, pairs_map, pairs_map_looks_up, OrderedMap};
use vstd::prelude::*;

verus! {

/// The names and values of a sequence of header fields.
pub open spec fn header_texts(headers: Seq<(String, String)>) -> Seq<(Seq<char>, Seq<char>)> {
    headers.map_values(|h: (String, String)| (h.0@, h.1@))
}

/// A set of header fields. A name occurs once.
#[derive(Debug, PartialEq)]
pub struct Fields {
    map: OrderedMap<String>,
}

impl View for Fields {
    type V = Map<Seq<char>, Seq<char>>;

    closed spec fn view(&self) -> Map<Seq<char>, Seq<char>> {
        self.map@.map_values(|value: String| value@)
    }
}

impl Fields {
    /// The names with their values, in ascending order of the names.
    pub closed spec fn pairs(&self) -> Seq<(Seq<char>, Seq<char>)> {
        self.map.pairs().map_values(|p: (Seq<char>, String)| (p.0, p.1@))
    }

    /// No fields.
    pub fn new() -> (r: Self)
        ensures
            r@ == Map::<Seq<char>, Seq<char>>::empty(),
            r.pairs() == Seq::<(Seq<char>, Seq<char>)>::empty(),
    {
        let r = Fields { map: OrderedMap::new() };
        assert(r@ =~= Map::<Seq<char>, Seq<char>>::empty());
        assert(r.pairs() =~= Seq::<(Seq<char>, Seq<char>)>::empty());
        r
    }

    /// The number of fields.
    pub fn len(&self) -> (r: usize)
        ensures
            r == self.pairs().len(),
            r == self@.dom().len(),
            self@.dom().finite(),
    {
        assert(self@.dom() =~= self.map@.dom());
        self.map.len()
    }

    /// Whether there is no field.
    pub fn is_empty(&self) -> (r: bool)
        ensures
            r == (self@ == Map::<Seq<char>, Seq<char>>::empty()),
            r == (self.pairs().len() == 0),
    {
        let r = self.map.is_empty();
        proof {
            assert(self@.dom() =~= self.map@.dom());
            if self.map@ == Map::<Seq<char>, String>::empty() {
                assert(self@ =~= Map::<Seq<char>, Seq<char>>::empty());
            }
            if self@ == Map::<Seq<char>, Seq<char>>::empty() {
                assert(self.map@ =~= Map::<Seq<char>, String>::empty());
            }
        }
        r
    }

    /// The value of a field.
    pub fn get(&self, name: &str) -> (r: Option<&String>)
        ensures
            r is Some <==> self@.dom().contains(name@),
            r matches Some(value) ==> value@ == self@[name@],
    {
        assert(self@.dom() =~= self.map@.dom());
        self.map.get(name)
    }

    /// Gives a field a value, in place of any that it had.
    pub fn insert(&mut self, name: String, value: String)
        ensures
            final(self)@ == old(self)@.insert(name@, value@),
    {
        let ghost before = self.map@;
        self.map.insert(name, value);
        assert(self@ =~= old(self)@.insert(name@, value@));
    }

    /// The fields, in ascending order of their names.
    pub fn entries(&self) -> (r: &Vec<(String, String)>)
        ensures
            header_texts(r@) == self.pairs(),
            keys_ascend(self.pairs()),
            pairs_map(self.pairs()) == self@,
    {
        let r = self.map.entries();
        proof {
            let inner = self.map.pairs();
            let outer = self.pairs();
            assert(header_texts(r@) =~= outer) by {
                assert(outer.len() == r@.len());
                assert forall|i: int| 0 <= i < r@.len() implies #[trigger] header_texts(r@)[i]
                    == outer[i] by {
                    assert(entry_pairs(r@)[i] == inner[i]);
                }
            }
            assert forall|i: int, j: int|
                0 <= i < j < outer.len() implies crate::text::text_before(
                #[trigger] outer[i].0,
                #[trigger] outer[j].0,
            ) by {
                assert(crate::text::text_before(inner[i].0, inner[j].0));
            }
            assert forall|k: Seq<char>|
                #![trigger self@.dom().contains(k)]
                self@.dom().contains(k) == has_key(outer, k) && (self@.dom().contains(k)
                    ==> self@[k] == pairs_map(outer)[k]) by {
                if has_key(inner, k) {
                    let i = choose|i: int| 0 <= i < inner.len() && (#[trigger] inner[i]).0 == k;
                    assert(outer[i].0 == k);
                    pairs_map_looks_up(outer, i);
                    pairs_map_looks_up(inner, i);
                }
                if has_key(outer, k) {
                    let i = choose|i: int| 0 <= i < outer.len() && (#[trigger] outer[i]).0 == k;
                    assert(inner[i].0 == k);
                }
            }
            assert(pairs_map(outer) =~= self@);
        }
        r
    }
}

impl Default for Fields {
    fn default() -> (r: Self)
        ensures
            r@ == Map::<Seq<char>, Seq<char>>::empty(),
    {
        Fields::new()
    }
}

impl Clone for Fields {
    fn clone(&self) -> (r: Self)
        ensures
            r@ == self@,
    {
        let entries = self.entries();
        let mut out = Fields::new();
        let mut i: usize = 0;
        let ghost pairs = self.pairs();
        assert(pairs_map(pairs.take(0)) =~= out@);
        while i < entries.len()
            invariant
                i <= entries@.len(),
                header_texts(entries@) == pairs,
                keys_ascend(pairs),
                out@ == pairs_map(pairs.take(i as int)),
            decreases entries@.len() - i,
        {
            let name = entries[i].0.clone();
            let value = entries[i].1.clone();
            let ghost before = out@;
            out.insert(name, value);
            proof {
                let seen = pairs.take(i as int);
                let more = pairs.take(i + 1);
                assert(pairs[i as int] == header_texts(entries@)[i as int]);
                assert(more =~= seen.push(pairs[i as int]));
                assert(keys_ascend(more)) by {
                    assert forall|a: int, b: int|
                        0 <= a < b < more.len() implies crate::text::text_before(
                        #[trigger] more[a].0,
                        #[trigger] more[b].0,
                    ) by {
                        assert(crate::text::text_before(pairs[a].0, pairs[b].0));
                    }
                }
                lemma_map_grows(more);
                assert(more.drop_last() =~= seen);
            }
            i += 1;
        }
        assert(pairs.take(i as int) =~= pairs);
        out
    }
}

proof fn lemma_map_grows(pairs: Seq<(Seq<char>, Seq<char>)>)
    requires
        keys_ascend(pairs),
        pairs.len() > 0,
    ensures
        pairs_map(pairs) == pairs_map(pairs.drop_last()).insert(pairs.last().0, pairs.last().1),
{
    let shorter = pairs.drop_last();
    let left = pairs_map(pairs);
    let right = pairs_map(shorter).insert(pairs.last().0, pairs.last().1);
    let top = pairs.len() - 1;
    assert(keys_ascend(shorter)) by {
        assert forall|a: int, b: int|
            0 <= a < b < shorter.len() implies crate::text::text_before(
            #[trigger] shorter[a].0,
            #[trigger] shorter[b].0,
        ) by {
            assert(crate::text::text_before(pairs[a].0, pairs[b].0));
        }
    }
    assert forall|k: Seq<char>|
        #![trigger left.dom().contains(k)]
        left.dom().contains(k) == right.dom().contains(k) && (left.dom().contains(k) ==> left[k]
            == right[k]) by {
        assert(pairs[top].0 == pairs.last().0);
        pairs_map_looks_up(pairs, top);
        if has_key(pairs, k) {
            let i = choose|i: int| 0 <= i < pairs.len() && (#[trigger] pairs[i]).0 == k;
            pairs_map_looks_up(pairs, i);
            if i < top {
                assert(shorter[i] == pairs[i]);
                pairs_map_looks_up(shorter, i);
            }
        }
        if has_key(shorter, k) {
            let i = choose|i: int| 0 <= i < shorter.len() && (#[trigger] shorter[i]).0 == k;
            assert(pairs[i].0 == k);
        }
    }
    assert(left =~= right);
}

/// The texts of some header fields are those of the fields, one by one.
pub proof fn header_texts_are_taken_one_by_one(headers: Seq<(String, String)>)
    ensures
        header_texts(headers).len() == headers.len(),
        forall|i: int|
            0 <= i < headers.len() ==> #[trigger] header_texts(headers)[i] == (
                headers[i].0@,
                headers[i].1@,
            ),
{
}

} // verus!
