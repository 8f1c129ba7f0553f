//! A table from text to text.

use vstd::prelude::*;
use vstd::string::*;

use crate::text::same;

verus! {

/// The table that a list of pairs spells out; a later pair replaces an earlier
/// one of the same key.
pub open spec fn table_of(pairs: Seq<(String, String)>) -> Map<Seq<char>, Seq<char>>
    decreases pairs.len(),
{
    if pairs.len() == 0 {
        Map::empty()
    } else {
        table_of(pairs.drop_last()).insert(pairs.last().0@, pairs.last().1@)
    }
}

/// Whether no key stands twice in a list of pairs.
pub open spec fn keys_distinct(pairs: Seq<(String, String)>) -> bool {
    forall|i: int, j: int| 0 <= i < j < pairs.len() ==> #[trigger] pairs[i].0@ != #[trigger] pairs[j].0@
}

/// Text by text. No key stands in it twice.
#[derive(Debug)]
pub struct Table {
    pairs: Vec<(String, String)>,
}

impl View for Table {
    type V = Map<Seq<char>, Seq<char>>;

    closed spec fn view(&self) -> Map<Seq<char>, Seq<char>> {
        table_of(self.pairs@)
    }
}

impl Table {
    #[verifier::type_invariant]
    spec fn well_formed(self) -> bool {
        keys_distinct(self.pairs@)
    }

    /// A table that holds nothing.
    pub fn new() -> (table: Self)
        ensures
            table@ == Map::<Seq<char>, Seq<char>>::empty(),
    {
        Table { pairs: Vec::new() }
    }

    /// What stands under `key`.
    pub fn get(&self, key: &str) -> (held: Option<&String>)
        ensures
            match held {
                Some(value) => self@.contains_key(key@) && self@[key@] == value@,
                None => !self@.contains_key(key@),
            },
    {
        let mut i: usize = self.pairs.len();
        assert(self.pairs@.take(i as int) =~= self.pairs@);
        while i > 0
            invariant
                i <= self.pairs@.len(),
                table_of(self.pairs@).contains_key(key@) == table_of(
                    self.pairs@.take(i as int),
                ).contains_key(key@),
                table_of(self.pairs@)[key@] == table_of(self.pairs@.take(i as int))[key@],
            decreases i,
        {
            i = i - 1;
            assert(self.pairs@.take(i + 1).drop_last() =~= self.pairs@.take(i as int));
            if same(self.pairs[i].0.as_str(), key) {
                return Some(&self.pairs[i].1);
            }
        }
        None
    }

    /// Whether the table holds nothing.
    pub fn is_empty(&self) -> (empty: bool)
        ensures
            empty == (self@ == Map::<Seq<char>, Seq<char>>::empty()),
    {
        proof {
            if self.pairs@.len() > 0 {
                assert(table_of(self.pairs@).contains_key(self.pairs@.last().0@));
            }
        }
        self.pairs.len() == 0
    }

    /// The pairs without the one of `key`.
    fn others(pairs: &Vec<(String, String)>, key: &str) -> (rest: Vec<(String, String)>)
        requires
            keys_distinct(pairs@),
        ensures
            keys_distinct(rest@),
            table_of(rest@) == table_of(pairs@).remove(key@),
            forall|i: int| 0 <= i < rest@.len() ==> (#[trigger] rest@[i]).0@ != key@,
    {
        let mut rest: Vec<(String, String)> = Vec::new();
        let mut i: usize = 0;
        while i < pairs.len()
            invariant
                i <= pairs@.len(),
                keys_distinct(pairs@),
                keys_distinct(rest@),
                table_of(rest@) =~= table_of(pairs@.take(i as int)).remove(key@),
                forall|k: int| 0 <= k < rest@.len() ==> (#[trigger] rest@[k]).0@ != key@,
                forall|k: int|
                    0 <= k < rest@.len() ==> exists|j: int|
                        0 <= j < i && (#[trigger] rest@[k]).0@ == #[trigger] pairs@[j].0@,
            decreases pairs@.len() - i,
        {
            let ghost before = rest@;
            assert(pairs@.take(i + 1).drop_last() =~= pairs@.take(i as int));
            if !same(pairs[i].0.as_str(), key) {
                rest.push((pairs[i].0.clone(), pairs[i].1.clone()));
                assert(rest@.drop_last() =~= before);
                assert forall|k: int| 0 <= k < rest@.len() implies exists|j: int|
                    0 <= j < i + 1 && (#[trigger] rest@[k]).0@ == #[trigger] pairs@[j].0@ by {
                    if k < before.len() {
                        assert(rest@[k] == before[k]);
                    } else {
                        assert(rest@[k].0@ == pairs@[i as int].0@);
                    }
                }
            }
            i = i + 1;
        }
        assert(pairs@.take(pairs@.len() as int) =~= pairs@);
        rest
    }

    /// Puts `value` under `key`, in place of what stood there.
    pub fn insert(&mut self, key: String, value: String)
        ensures
            final(self)@ == old(self)@.insert(key@, value@),
    {
        proof {
            use_type_invariant(&*self);
        }
        let mut pairs = Self::others(&self.pairs, key.as_str());
        let ghost rest = pairs@;
        pairs.push((key, value));
        assert(pairs@.drop_last() =~= rest);
        assert(table_of(pairs@) =~= table_of(self.pairs@).insert(key@, value@));
        self.pairs = pairs;
    }

    /// Takes out what stands under `key`.
    pub fn remove(&mut self, key: &str) -> (held: Option<String>)
        ensures
            final(self)@ == old(self)@.remove(key@),
            match held {
                Some(value) => old(self)@.contains_key(key@) && old(self)@[key@] == value@,
                None => !old(self)@.contains_key(key@),
            },
    {
        proof {
            use_type_invariant(&*self);
        }
        let held = match self.get(key) {
            Some(value) => Some(value.clone()),
            None => None,
        };
        let rest = Self::others(&self.pairs, key);
        self.pairs = rest;
        held
    }

    /// The pairs of the table.
    pub fn pairs(&self) -> (pairs: &Vec<(String, String)>)
        ensures
            table_of(pairs@) == self@,
            keys_distinct(pairs@),
    {
        proof {
            use_type_invariant(self);
        }
        &self.pairs
    }
}

/// Pairs of distinct keys are a table of them: under each key stands its value,
/// and there is no other key.
pub proof fn law_pairs_make_a_table(pairs: Seq<(String, String)>, i: int, key: Seq<char>)
    requires
        keys_distinct(pairs),
    ensures
        0 <= i < pairs.len() ==> {
            &&& table_of(pairs).dom().contains(pairs[i].0@)
            &&& table_of(pairs)[pairs[i].0@] == pairs[i].1@
        },
        (forall|j: int| 0 <= j < pairs.len() ==> (#[trigger] pairs[j]).0@ != key) ==> !table_of(
            pairs,
        ).dom().contains(key),
    decreases pairs.len(),
{
    if pairs.len() > 0 {
        let front = pairs.drop_last();
        assert(keys_distinct(front)) by {
            assert forall|a: int, b: int| 0 <= a < b < front.len() implies #[trigger] front[a].0@
                != #[trigger] front[b].0@ by {
                assert(pairs[a].0@ != pairs[b].0@);
            }
        }
        law_pairs_make_a_table(front, i, key);
        if 0 <= i < front.len() {
            assert(pairs[i].0@ != pairs[pairs.len() - 1].0@);
            assert(front[i] == pairs[i]);
        }
        if forall|j: int| 0 <= j < pairs.len() ==> (#[trigger] pairs[j]).0@ != key {
            assert forall|j: int| 0 <= j < front.len() implies (#[trigger] front[j]).0@ != key by {
                assert(front[j] == pairs[j]);
            }
            assert(pairs[pairs.len() - 1].0@ != key);
        }
    }
}

} // verus!
