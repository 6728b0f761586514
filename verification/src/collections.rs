//! Collections keyed by text.

use vstd::prelude::*;

use crate::text;

verus! {

/// A map from text (a window class) to values.
///
/// The entries are kept in a vector, in the order in which their keys first
/// came in; no key occurs twice.
#[derive(Debug)]
pub struct ClassMap<V> {
    entries: Vec<(String, V)>,
}

impl<V> ClassMap<V> {
    /// No key occurs twice.
    #[verifier::type_invariant]
    spec fn distinct(self) -> bool {
        forall|i: int, j: int|
            0 <= i < j < self.entries@.len() ==> #[trigger] self.entries@[i].0@
                != #[trigger] self.entries@[j].0@
    }

    spec fn holds(self, key: Seq<char>, i: int) -> bool {
        0 <= i < self.entries@.len() && self.entries@[i].0@ == key
    }
}

impl<V> View for ClassMap<V> {
    type V = Map<Seq<char>, V>;

    closed spec fn view(&self) -> Map<Seq<char>, V> {
        Map::new(
            |key: Seq<char>| exists|i: int| self.holds(key, i),
            |key: Seq<char>| self.entries@[choose|i: int| self.holds(key, i)].1,
        )
    }
}

impl<V> ClassMap<V> {
    proof fn lemma_at(self, i: int)
        requires
            self.distinct(),
            0 <= i < self.entries@.len(),
        ensures
            self@.contains_key(self.entries@[i].0@),
            self@[self.entries@[i].0@] == self.entries@[i].1,
    {
        let key = self.entries@[i].0@;
        assert(self.holds(key, i));
        let j = choose|j: int| self.holds(key, j);
        assert(self.holds(key, j));
        assert(i == j);
    }

    /// The empty map.
    pub fn new() -> (r: Self)
        ensures
            r@ == Map::<Seq<char>, V>::empty(),
    {
        let r = ClassMap { entries: Vec::new() };
        assert(r@ =~= Map::<Seq<char>, V>::empty());
        r
    }

    /// The position of `key`, or the number of entries where it is not there.
    fn find(entries: &Vec<(String, V)>, key: &str) -> (r: usize)
        ensures
            r <= entries@.len(),
            r < entries@.len() ==> entries@[r as int].0@ == key@,
            forall|j: int| 0 <= j < r ==> #[trigger] entries@[j].0@ != key@,
    {
        let mut i: usize = 0;
        while i < entries.len()
            invariant
                0 <= i <= entries@.len(),
                forall|j: int| 0 <= j < i ==> #[trigger] entries@[j].0@ != key@,
            decreases entries@.len() - i,
        {
            if text::same(entries[i].0.as_str(), key) {
                return i;
            }
            i += 1;
        }
        i
    }

    /// The value that `key` maps to.
    pub fn get(&self, key: &str) -> (r: Option<&V>)
        ensures
            match r {
                Some(v) => self@.contains_key(key@) && *v == self@[key@],
                None => !self@.contains_key(key@),
            },
    {
        proof {
            use_type_invariant(&*self);
        }
        let i: usize = Self::find(&self.entries, key);
        if i < self.entries.len() {
            proof {
                self.lemma_at(i as int);
            }
            Some(&self.entries[i].1)
        } else {
            None
        }
    }

    /// Maps `key` to `value`, in place of what it mapped to.
    pub fn insert(&mut self, key: String, value: V)
        ensures
            final(self)@ == old(self)@.insert(key@, value),
    {
        proof {
            use_type_invariant(&*self);
        }
        let ghost before = *self;
        let mut entries: Vec<(String, V)> = Vec::new();
        std::mem::swap(&mut entries, &mut self.entries);
        let i: usize = Self::find(&entries, key.as_str());
        let ghost k = key@;
        if i < entries.len() {
            entries.set(i, (key, value));
        } else {
            entries.push((key, value));
        }
        self.entries = entries;
        proof {
            let after = *self;
            assert forall|q: Seq<char>| #[trigger]
                after@.contains_key(q) == before@.insert(k, value).contains_key(q) by {
                if q == k {
                    assert(after.holds(q, i as int));
                } else if before@.contains_key(q) {
                    let j = choose|j: int| before.holds(q, j);
                    assert(after.holds(q, j));
                } else if after@.contains_key(q) {
                    let j = choose|j: int| after.holds(q, j);
                    assert(before.holds(q, j));
                }
            }
            assert forall|q: Seq<char>| #[trigger] after@.contains_key(q) implies after@[q]
                == before@.insert(k, value)[q] by {
                let j = choose|j: int| after.holds(q, j);
                after.lemma_at(j);
                if q == k {
                    after.lemma_at(i as int);
                } else {
                    assert(before.holds(q, j));
                    before.lemma_at(j);
                }
            }
            assert(after@ =~= before@.insert(k, value));
        }
    }

    /// Takes `key` out of the map.
    pub fn remove(&mut self, key: &str)
        ensures
            final(self)@ == old(self)@.remove(key@),
    {
        proof {
            use_type_invariant(&*self);
        }
        let ghost before = *self;
        let mut entries: Vec<(String, V)> = Vec::new();
        std::mem::swap(&mut entries, &mut self.entries);
        let i: usize = Self::find(&entries, key);
        let ghost found = i < entries@.len();
        if i < entries.len() {
            let _ = entries.remove(i);
        }
        self.entries = entries;
        proof {
            let after = *self;
            assert forall|q: Seq<char>| #[trigger]
                after@.contains_key(q) == before@.remove(key@).contains_key(q) by {
                if after@.contains_key(q) {
                    let j = choose|j: int| after.holds(q, j);
                    if found && j >= i {
                        assert(before.holds(q, j + 1));
                        assert(before.entries@[i as int].0@ != before.entries@[j + 1].0@);
                    } else {
                        assert(before.holds(q, j));
                    }
                } else if before@.contains_key(q) && q != key@ {
                    let j = choose|j: int| before.holds(q, j);
                    if found && j > i {
                        assert(after.holds(q, j - 1));
                    } else {
                        assert(after.holds(q, j));
                    }
                }
            }
            assert forall|q: Seq<char>| #[trigger] after@.contains_key(q) implies after@[q]
                == before@[q] by {
                let j = choose|j: int| after.holds(q, j);
                after.lemma_at(j);
                if found && j >= i {
                    assert(before.holds(q, j + 1));
                    before.lemma_at(j + 1);
                } else {
                    assert(before.holds(q, j));
                    before.lemma_at(j);
                }
            }
            assert(after@ =~= before@.remove(key@));
        }
    }

    /// Whether the map holds nothing.
    pub fn is_empty(&self) -> (r: bool)
        ensures
            r == (self@ == Map::<Seq<char>, V>::empty()),
    {
        proof {
            use_type_invariant(&*self);
            if self.entries@.len() > 0 {
                self.lemma_at(0);
            } else {
                assert(self@ =~= Map::<Seq<char>, V>::empty());
            }
        }
        self.entries.len() == 0
    }
}

/// A set of texts (window addresses).
#[derive(Debug)]
pub struct TextSet {
    items: Vec<String>,
}

impl TextSet {
    /// No text occurs twice.
    #[verifier::type_invariant]
    spec fn distinct(self) -> bool {
        text::texts(self.items@).no_duplicates()
    }
}

impl View for TextSet {
    type V = Set<Seq<char>>;

    closed spec fn view(&self) -> Set<Seq<char>> {
        text::texts(self.items@).to_set()
    }
}

impl TextSet {
    /// The empty set.
    pub fn new() -> (r: Self)
        ensures
            r@ == Set::<Seq<char>>::empty(),
    {
        let r = TextSet { items: Vec::new() };
        assert(r@ =~= Set::<Seq<char>>::empty());
        r
    }

    /// The position of `item`, or the number of texts where it is not there.
    fn position(&self, item: &str) -> (r: usize)
        ensures
            r <= self.items@.len(),
            r < self.items@.len() ==> text::texts(self.items@)[r as int] == item@,
            r == self.items@.len() ==> !text::texts(self.items@).contains(item@),
    {
        let mut i: usize = 0;
        while i < self.items.len()
            invariant
                0 <= i <= self.items@.len(),
                forall|j: int| 0 <= j < i ==> text::texts(self.items@)[j] != item@,
            decreases self.items@.len() - i,
        {
            if text::same(self.items[i].as_str(), item) {
                return i;
            }
            i += 1;
        }
        i
    }

    /// Whether `item` is in the set.
    pub fn contains(&self, item: &str) -> (r: bool)
        ensures
            r == self@.contains(item@),
    {
        text::contains(self.items.as_slice(), item)
    }

    /// The number of texts in the set.
    pub fn len(&self) -> (r: usize)
        ensures
            self@.finite(),
            r == self@.len(),
    {
        proof {
            use_type_invariant(&*self);
            text::texts(self.items@).unique_seq_to_set();
        }
        self.items.len()
    }

    /// Puts `item` into the set. Returns whether it was not there before.
    pub fn insert(&mut self, item: String) -> (r: bool)
        ensures
            r == !old(self)@.contains(item@),
            final(self)@ == old(self)@.insert(item@),
    {
        proof {
            use_type_invariant(&*self);
        }
        let ghost was = text::texts(self.items@);
        if self.contains(item.as_str()) {
            assert(self@ =~= self@.insert(item@));
            return false;
        }
        let mut items: Vec<String> = Vec::new();
        std::mem::swap(&mut items, &mut self.items);
        items.push(item);
        proof {
            assert(text::texts(items@) =~= was.push(item@));
            assert(was.push(item@).to_set() =~= was.to_set().insert(item@)) by {
                was.lemma_push_to_set_commute(item@);
            }
        }
        self.items = items;
        true
    }

    /// Takes `item` out of the set. Returns whether it was there.
    pub fn remove(&mut self, item: &str) -> (r: bool)
        ensures
            r == old(self)@.contains(item@),
            final(self)@ == old(self)@.remove(item@),
    {
        proof {
            use_type_invariant(&*self);
        }
        let ghost was = text::texts(self.items@);
        let i: usize = self.position(item);
        if i == self.items.len() {
            assert(self@ =~= self@.remove(item@));
            return false;
        }
        let mut items: Vec<String> = Vec::new();
        std::mem::swap(&mut items, &mut self.items);
        let _ = items.remove(i);
        proof {
            let now = text::texts(items@);
            assert(was[i as int] == item@);
            assert(now =~= was.remove(i as int));
            assert forall|q: Seq<char>| now.to_set().contains(q) == (was.to_set().contains(q) && q
                != item@) by {
                if now.contains(q) {
                    let j = choose|j: int| 0 <= j < now.len() && now[j] == q;
                    if j < i {
                        assert(was[j] == q);
                    } else {
                        assert(was[j + 1] == q);
                    }
                }
                if was.contains(q) && q != item@ {
                    let j = choose|j: int| 0 <= j < was.len() && was[j] == q;
                    if j < i {
                        assert(now[j] == q);
                    } else {
                        assert(now[j - 1] == q);
                    }
                }
            }
            assert(now.to_set() =~= was.to_set().remove(item@));
        }
        self.items = items;
        true
    }
}

} // verus!
