//! Environment variables: a map from names to values whose entries are kept
//! in the order of their names.
use vstd::prelude::*;

use crate::text::{
    compare_texts, lemma_precedes_total, lemma_precedes_transitive, lemma_views_empty,
    lemma_views_push, precedes, views, Side,
};

verus! {

/// A name and its value.
pub type Pair = (Seq<char>, Seq<char>);

/// One variable.
#[derive(Debug, PartialEq, Eq)]
pub struct Entry {
    pub key: String,
    pub value: String,
}

impl View for Entry {
    type V = Pair;

    open spec fn view(&self) -> Pair {
        (self.key@, self.value@)
    }
}

/// Whether the names of the pairs strictly increase.
pub open spec fn increasing(pairs: Seq<Pair>) -> bool {
    forall|i: int, j: int|
        0 <= i < j < pairs.len() ==> #[trigger] precedes(pairs[i].0, pairs[j].0)
}

/// Whether one of the pairs has this name.
pub open spec fn has_key(pairs: Seq<Pair>, key: Seq<char>) -> bool {
    exists|i: int| 0 <= i < pairs.len() && (#[trigger] pairs[i]).0 == key
}

/// The position of the pair with this name.
pub open spec fn key_index(pairs: Seq<Pair>, key: Seq<char>) -> int {
    choose|i: int| 0 <= i < pairs.len() && (#[trigger] pairs[i]).0 == key
}

/// The map that the pairs write down.
pub open spec fn map_of(pairs: Seq<Pair>) -> Map<Seq<char>, Seq<char>> {
    Map::new(|key: Seq<char>| has_key(pairs, key), |key: Seq<char>| pairs[key_index(pairs, key)].1)
}

pub proof fn lemma_key_index(pairs: Seq<Pair>, i: int)
    requires
        increasing(pairs),
        0 <= i < pairs.len(),
    ensures
        has_key(pairs, pairs[i].0),
        key_index(pairs, pairs[i].0) == i,
        map_of(pairs).contains_key(pairs[i].0),
        map_of(pairs)[pairs[i].0] == pairs[i].1,
{
    let key = pairs[i].0;
    let j = key_index(pairs, key);
    assert(has_key(pairs, key));
    lemma_precedes_total(key, key);
    if i < j {
        assert(precedes(pairs[i].0, pairs[j].0));
    }
    if j < i {
        assert(precedes(pairs[j].0, pairs[i].0));
    }
}

/// Environment variables, sorted by their names.
#[derive(Debug, PartialEq, Eq)]
pub struct Environment {
    entries: Vec<Entry>,
}

impl View for Environment {
    type V = Map<Seq<char>, Seq<char>>;

    open spec fn view(&self) -> Map<Seq<char>, Seq<char>> {
        map_of(self.pairs())
    }
}

impl Environment {
    /// The variables in the order of their names.
    pub closed spec fn pairs(&self) -> Seq<Pair> {
        views(self.entries@)
    }

    #[verifier::type_invariant]
    spec fn sorted(&self) -> bool {
        increasing(views(self.entries@))
    }

    /// No variable at all.
    pub fn new() -> (environment: Environment)
        ensures
            environment.pairs() == Seq::<Pair>::empty(),
            environment@ == Map::<Seq<char>, Seq<char>>::empty(),
    {
        broadcast use lemma_views_empty;

        let environment = Environment { entries: Vec::new() };
        assert(environment.pairs() =~= Seq::<Pair>::empty());
        assert(environment@ =~= Map::<Seq<char>, Seq<char>>::empty());
        environment
    }

    /// How many variables there are.
    pub fn len(&self) -> (len: usize)
        ensures
            len == self.pairs().len(),
    {
        self.entries.len()
    }

    /// The variable at a position.
    pub fn entry(&self, index: usize) -> (entry: &Entry)
        requires
            index < self.pairs().len(),
        ensures
            entry@ == self.pairs()[index as int],
            increasing(self.pairs()),
    {
        proof {
            use_type_invariant(self);
        }
        &self.entries[index]
    }

    /// The first position whose name does not come before `key`, and whether
    /// the name there is `key`.
    fn locate(&self, key: &str) -> (place: (usize, bool))
        ensures
            place.0 <= self.pairs().len(),
            forall|k: int|
                0 <= k < place.0 ==> precedes((#[trigger] self.pairs()[k]).0, key@),
            place.1 ==> place.0 < self.pairs().len() && self.pairs()[place.0 as int].0 == key@,
            !place.1 ==> !has_key(self.pairs(), key@),
            !place.1 ==> forall|k: int|
                place.0 <= k < self.pairs().len() ==> precedes(
                    key@,
                    (#[trigger] self.pairs()[k]).0,
                ),
    {
        proof {
            use_type_invariant(self);
        }
        let ghost pairs = self.pairs();
        let mut i: usize = 0;
        while i < self.entries.len()
            invariant
                i <= self.entries.len(),
                pairs == self.pairs(),
                increasing(pairs),
                forall|k: int| 0 <= k < i ==> precedes((#[trigger] pairs[k]).0, key@),
            decreases self.entries.len() - i,
        {
            let side = compare_texts(&self.entries[i].key, key);
            assert(pairs[i as int].0 == self.entries@[i as int].key@);
            match side {
                Side::Before => {
                    i += 1;
                },
                Side::Same => {
                    return (i, true);
                },
                Side::After => {
                    proof {
                        assert forall|k: int| i <= k < pairs.len() implies precedes(
                            key@,
                            (#[trigger] pairs[k]).0,
                        ) by {
                            if k > i {
                                assert(precedes(pairs[i as int].0, pairs[k].0));
                                lemma_precedes_transitive(key@, pairs[i as int].0, pairs[k].0);
                            }
                        }
                        Self::lemma_absent(pairs, key@, i as int);
                    }
                    return (i, false);
                },
            }
        }
        proof {
            Self::lemma_absent(pairs, key@, i as int);
        }
        (i, false)
    }

    proof fn lemma_absent(pairs: Seq<Pair>, key: Seq<char>, at: int)
        requires
            0 <= at <= pairs.len(),
            forall|k: int| 0 <= k < at ==> precedes((#[trigger] pairs[k]).0, key),
            forall|k: int| at <= k < pairs.len() ==> precedes(key, (#[trigger] pairs[k]).0),
        ensures
            !has_key(pairs, key),
    {
        if has_key(pairs, key) {
            let k = key_index(pairs, key);
            lemma_precedes_total(key, key);
            assert(pairs[k].0 == key);
        }
    }

    /// The value of a variable.
    pub fn get(&self, key: &str) -> (value: Option<&String>)
        ensures
            match value {
                Some(value) => self@.contains_key(key@) && self@[key@] == value@,
                None => !self@.contains_key(key@),
            },
    {
        let (at, found) = self.locate(key);
        if found {
            proof {
                use_type_invariant(self);
                lemma_key_index(self.pairs(), at as int);
            }
            Some(&self.entries[at].value)
        } else {
            None
        }
    }

    /// Sets a variable, in place of the value that it had.
    pub fn insert(&mut self, key: String, value: String)
        ensures
            final(self)@ == old(self)@.insert(key@, value@),
    {
        let (at, found) = self.locate(&key);
        let ghost before = self.pairs();
        let ghost pair: Pair = (key@, value@);
        proof {
            use_type_invariant(&*self);
        }
        if found {
            let ghost after = before.update(at as int, pair);
            proof {
                assert forall|i: int, j: int| 0 <= i < j < after.len() implies #[trigger] precedes(
                    after[i].0,
                    after[j].0,
                ) by {
                    assert(precedes(before[i].0, before[j].0));
                }
                lemma_key_index(before, at as int);
                Self::lemma_maps(before, after, at as int, pair);
            }
            let mut whole = Environment::new();
            core::mem::swap(self, &mut whole);
            let mut entries = whole.entries;
            let entry = Entry { key, value };
            assert(views(entries@.update(at as int, entry)) =~= after);
            entries.set(at, entry);
            *self = Environment { entries };
        } else {
            let ghost after = before.insert(at as int, pair);
            proof {
                assert forall|i: int, j: int| 0 <= i < j < after.len() implies #[trigger] precedes(
                    after[i].0,
                    after[j].0,
                ) by {
                    let x = if i < at { i } else { i - 1 };
                    let y = if j < at { j } else { j - 1 };
                    if i != at && j != at {
                        assert(precedes(before[x].0, before[y].0));
                    } else if i == at {
                        assert(precedes(key@, before[y].0));
                    } else {
                        assert(precedes(before[x].0, key@));
                    }
                }
                Self::lemma_maps(before, after, at as int, pair);
            }
            let mut whole = Environment::new();
            core::mem::swap(self, &mut whole);
            let mut entries = whole.entries;
            let entry = Entry { key, value };
            assert(views(entries@.insert(at as int, entry)) =~= after);
            entries.insert(at, entry);
            *self = Environment { entries };
        }
    }

    proof fn lemma_maps(before: Seq<Pair>, after: Seq<Pair>, at: int, pair: Pair)
        requires
            increasing(before),
            increasing(after),
            0 <= at <= before.len(),
            after == before.insert(at, pair) && !has_key(before, pair.0) || at < before.len()
                && before[at].0 == pair.0 && after == before.update(at, pair),
        ensures
            map_of(after) == map_of(before).insert(pair.0, pair.1),
    {
        let left = map_of(after);
        let right = map_of(before).insert(pair.0, pair.1);
        let shifted = after.len() != before.len();
        assert(after[at] == pair);
        assert forall|key: Seq<char>| left.contains_key(key) <==> right.contains_key(key) by {
            if left.contains_key(key) {
                let i = key_index(after, key);
                assert(after[i].0 == key);
                if i != at {
                    let j = if shifted && i > at { i - 1 } else { i };
                    assert(before[j] == after[i]);
                }
            }
            if map_of(before).contains_key(key) {
                let j = key_index(before, key);
                assert(before[j].0 == key);
                let i = if shifted && j >= at { j + 1 } else { j };
                if i != at {
                    assert(after[i] == before[j]);
                }
                assert(after[i].0 == key);
            }
            if key == pair.0 {
                assert(after[at].0 == key);
            }
        }
        assert forall|key: Seq<char>| #[trigger] left.contains_key(key) implies left[key]
            == right[key] by {
            let i = key_index(after, key);
            assert(after[i].0 == key);
            lemma_key_index(after, i);
            if i == at {
                assert(key == pair.0);
            } else {
                let j = if shifted && i > at { i - 1 } else { i };
                assert(before[j] == after[i]);
                lemma_key_index(before, j);
                lemma_key_index(after, at);
                assert(key != pair.0);
            }
        }
        assert(left =~= right);
    }

    /// Sets all variables of `other`.
    pub fn extend(&mut self, other: &Environment)
        ensures
            final(self)@ == old(self)@.union_prefer_right(other@),
    {
        let ghost pairs = other.pairs();
        let ghost start = self@;
        proof {
            use_type_invariant(other);
            assert(map_of(pairs.take(0)) =~= Map::<Seq<char>, Seq<char>>::empty());
            assert(start.union_prefer_right(Map::empty()) =~= start);
        }
        let mut i: usize = 0;
        while i < other.entries.len()
            invariant
                i <= other.entries.len(),
                pairs == other.pairs(),
                increasing(pairs),
                self@ == start.union_prefer_right(map_of(pairs.take(i as int))),
            decreases other.entries.len() - i,
        {
            let entry = &other.entries[i];
            self.insert(entry.key.clone(), entry.value.clone());
            proof {
                let pair = pairs[i as int];
                let shorter = pairs.take(i as int);
                let longer = pairs.take(i + 1);
                assert(longer =~= shorter.insert(i as int, pair));
                lemma_precedes_total(pair.0, pair.0);
                if has_key(shorter, pair.0) {
                    let k = key_index(shorter, pair.0);
                    assert(precedes(pairs[k].0, pairs[i as int].0));
                }
                Self::lemma_maps(shorter, longer, i as int, pair);
                assert(start.union_prefer_right(map_of(shorter)).insert(pair.0, pair.1)
                    =~= start.union_prefer_right(map_of(longer)));
            }
            i += 1;
        }
        assert(pairs.take(i as int) =~= pairs);
    }

    /// The same variables.
    pub fn copy(&self) -> (copy: Environment)
        ensures
            copy@ == self@,
            copy.pairs() == self.pairs(),
    {
        broadcast use {lemma_views_push, lemma_views_empty};

        proof {
            use_type_invariant(self);
        }
        let mut entries: Vec<Entry> = Vec::new();
        let mut i: usize = 0;
        while i < self.entries.len()
            invariant
                i <= self.entries.len(),
                views(entries@) == views(self.entries@).take(i as int),
            decreases self.entries.len() - i,
        {
            broadcast use {lemma_views_push, lemma_views_empty};

            let entry = &self.entries[i];
            entries.push(Entry { key: entry.key.clone(), value: entry.value.clone() });
            i += 1;
            assert(views(self.entries@).take(i as int) =~= views(self.entries@).take(i - 1).push(
                entry@,
            ));
        }
        assert(views(self.entries@).take(i as int) =~= views(self.entries@));
        Environment { entries }
    }
}

/// The variables of an environment determine the order in which they stand:
/// two environments with the same variables list them in the same way.
pub proof fn law_pairs_are_determined(a: &Environment, b: &Environment)
    requires
        increasing(a.pairs()),
        increasing(b.pairs()),
        a@ == b@,
    ensures
        a.pairs() == b.pairs(),
{
    lemma_same_pairs(a.pairs(), b.pairs());
}

/// The pairs of a map in the order of their names.
pub open spec fn sorted_pairs(variables: Map<Seq<char>, Seq<char>>) -> Seq<Pair> {
    choose|pairs: Seq<Pair>| increasing(pairs) && #[trigger] map_of(pairs) == variables
}

pub proof fn lemma_sorted_pairs(pairs: Seq<Pair>)
    requires
        increasing(pairs),
    ensures
        sorted_pairs(map_of(pairs)) == pairs,
{
    let chosen = sorted_pairs(map_of(pairs));
    assert(increasing(pairs) && map_of(pairs) == map_of(pairs));
    lemma_same_pairs(chosen, pairs);
}

proof fn lemma_same_pairs(a: Seq<Pair>, b: Seq<Pair>)
    requires
        increasing(a),
        increasing(b),
        map_of(a) == map_of(b),
    ensures
        a == b,
    decreases a.len(),
{
    if a.len() == 0 {
        if b.len() > 0 {
            lemma_key_index(b, 0);
            assert(map_of(a).contains_key(b[0].0));
        }
        assert(a =~= b);
    } else {
        let last = a.last();
        lemma_key_index(a, a.len() - 1);
        assert(map_of(b).contains_key(last.0));
        let j = key_index(b, last.0);
        assert(b[j].0 == last.0);
        let top = b.last();
        lemma_key_index(b, b.len() - 1);
        assert(map_of(a).contains_key(top.0));
        let i = key_index(a, top.0);
        assert(a[i].0 == top.0);
        if top.0 != last.0 {
            assert(precedes(a[i].0, last.0));
            assert(precedes(b[j].0, top.0));
            lemma_precedes_total(top.0, last.0);
        }
        lemma_key_index(b, j);
        assert(top.1 == last.1);
        let x = a.drop_last();
        let y = b.drop_last();
        assert(increasing(x)) by {
            assert forall|i: int, j: int| 0 <= i < j < x.len() implies #[trigger] precedes(
                x[i].0,
                x[j].0,
            ) by {
                assert(precedes(a[i].0, a[j].0));
            }
        }
        assert(increasing(y)) by {
            assert forall|i: int, j: int| 0 <= i < j < y.len() implies #[trigger] precedes(
                y[i].0,
                y[j].0,
            ) by {
                assert(precedes(b[i].0, b[j].0));
            }
        }
        lemma_dropped(a);
        lemma_dropped(b);
        lemma_same_pairs(x, y);
        assert(a =~= x.push(last));
        assert(b =~= y.push(top));
    }
}

proof fn lemma_dropped(pairs: Seq<Pair>)
    requires
        increasing(pairs),
        increasing(pairs.drop_last()),
        pairs.len() > 0,
    ensures
        map_of(pairs.drop_last()) == map_of(pairs).remove(pairs.last().0),
{
    let shorter = pairs.drop_last();
    let left = map_of(shorter);
    let right = map_of(pairs).remove(pairs.last().0);
    assert forall|key: Seq<char>| left.contains_key(key) <==> right.contains_key(key) by {
        if left.contains_key(key) {
            let i = key_index(shorter, key);
            assert(pairs[i] == shorter[i]);
            lemma_precedes_total(key, key);
            assert(precedes(pairs[i].0, pairs[pairs.len() - 1].0));
        }
        if right.contains_key(key) {
            let i = key_index(pairs, key);
            assert(pairs[i].0 == key);
            assert(i != pairs.len() - 1);
            assert(shorter[i] == pairs[i]);
        }
    }
    assert forall|key: Seq<char>| #[trigger] left.contains_key(key) implies left[key]
        == right[key] by {
        let i = key_index(shorter, key);
        assert(shorter[i].0 == key);
        assert(pairs[i] == shorter[i]);
        lemma_key_index(shorter, i);
        lemma_key_index(pairs, i);
    }
    assert(left =~= right);
}

} // verus!
