//! A table of values under string keys, which keeps the order of its entries.

use vstd::prelude::*;

verus! {

/// The keys of a sequence of entries, in order.
pub open spec fn keys<V>(entries: Seq<(Seq<char>, V)>) -> Seq<Seq<char>> {
    entries.map_values(|e: (Seq<char>, V)| e.0)
}

/// The value of the first entry under a key.
pub open spec fn lookup<V>(entries: Seq<(Seq<char>, V)>, key: Seq<char>) -> Option<V> {
    match keys(entries).index_of_first(key) {
        Some(i) => Some(entries[i].1),
        None => None,
    }
}

/// The entries after a value was stored under a key: in the place of the entry
/// that the key had, or at the end.
pub open spec fn put<V>(entries: Seq<(Seq<char>, V)>, key: Seq<char>, value: V) -> Seq<
    (Seq<char>, V),
> {
    match keys(entries).index_of_first(key) {
        Some(i) => entries.update(i, (key, value)),
        None => entries.push((key, value)),
    }
}

/// The entries without the first one under a key.
pub open spec fn without<V>(entries: Seq<(Seq<char>, V)>, key: Seq<char>) -> Seq<(Seq<char>, V)> {
    match keys(entries).index_of_first(key) {
        Some(i) => entries.remove(i),
        None => entries,
    }
}

/// No two entries share a key.
pub open spec fn distinct<V>(entries: Seq<(Seq<char>, V)>) -> bool {
    keys(entries).no_duplicates()
}

/// The entries with each value replaced by its image.
pub open spec fn image<V, W>(entries: Seq<(Seq<char>, V)>, f: spec_fn(V) -> W) -> Seq<
    (Seq<char>, W),
> {
    entries.map_values(|e: (Seq<char>, V)| (e.0, f(e.1)))
}

/// Where a key is found: at the first entry that has it, and nowhere if none has.
pub proof fn lemma_find<V>(entries: Seq<(Seq<char>, V)>, key: Seq<char>)
    ensures
        match keys(entries).index_of_first(key) {
            Some(i) => 0 <= i < entries.len() && entries[i].0 == key && forall|j: int|
                0 <= j < i ==> (#[trigger] entries[j]).0 != key,
            None => forall|j: int| 0 <= j < entries.len() ==> (#[trigger] entries[j]).0 != key,
        },
{
    keys(entries).index_of_first_ensures(key);
    assert forall|j: int| 0 <= j < entries.len() implies (#[trigger] entries[j]).0 == keys(
        entries,
    )[j] by {}
    if keys(entries).index_of_first(key) is None {
        assert forall|j: int| 0 <= j < entries.len() implies (#[trigger] entries[j]).0 != key by {
            if entries[j].0 == key {
                assert(keys(entries)[j] == key);
            }
        }
    }
}

/// A key that stands at a place of a table without repeated keys is found there.
pub proof fn lemma_found_at<V>(entries: Seq<(Seq<char>, V)>, i: int)
    requires
        distinct(entries),
        0 <= i < entries.len(),
    ensures
        keys(entries).index_of_first(entries[i].0) == Some(i),
        lookup(entries, entries[i].0) == Some(entries[i].1),
{
    lemma_find(entries, entries[i].0);
    let k = keys(entries).index_of_first(entries[i].0)->0;
    assert(keys(entries)[k] == keys(entries)[i]);
}

/// Storing under a key changes what is found under that key and nothing else,
/// and repeats no key.
pub proof fn lemma_put<V>(entries: Seq<(Seq<char>, V)>, key: Seq<char>, value: V)
    ensures
        distinct(entries) ==> distinct(put(entries, key, value)),
        forall|k: Seq<char>|
            #![trigger lookup(put(entries, key, value), k)]
            lookup(put(entries, key, value), k) == if k == key {
                Some(value)
            } else {
                lookup(entries, k)
            },
{
    let after = put(entries, key, value);
    lemma_find(entries, key);
    if distinct(entries) {
        assert forall|i: int, j: int| 0 <= i < after.len() && 0 <= j < after.len() && i != j implies
            keys(after)[i] != keys(after)[j] by {
            if i < entries.len() && j < entries.len() {
                assert(keys(after)[i] == keys(entries)[i]);
                assert(keys(after)[j] == keys(entries)[j]);
            }
        }
    }
    assert forall|k: Seq<char>| #![trigger lookup(after, k)] lookup(after, k) == (if k == key {
        Some(value)
    } else {
        lookup(entries, k)
    }) by {
        lemma_find(after, k);
        lemma_find(entries, k);
        if k == key {
            let at = match keys(entries).index_of_first(key) {
                Some(i) => i,
                None => entries.len() as int,
            };
            assert(after[at].0 == key);
            let found = keys(after).index_of_first(key)->0;
            assert(found == at) by {
                if found < at {
                    assert(after[found] == entries[found]);
                }
            }
        } else {
            match keys(entries).index_of_first(k) {
                Some(i) => {
                    assert(after[i] == entries[i]);
                    let found = keys(after).index_of_first(k)->0;
                    if found < i {
                        assert(after[found].0 == entries[found].0);
                    }
                },
                None => {
                    if keys(after).index_of_first(k) is Some {
                        let found = keys(after).index_of_first(k)->0;
                        assert(found < entries.len() ==> after[found].0 == entries[found].0);
                    }
                },
            }
        }
    }
}

/// Taking a key out of a table without repeated keys takes what is found under
/// that key and nothing else.
pub proof fn lemma_without<V>(entries: Seq<(Seq<char>, V)>, key: Seq<char>)
    requires
        distinct(entries),
    ensures
        distinct(without(entries, key)),
        forall|k: Seq<char>|
            #![trigger lookup(without(entries, key), k)]
            lookup(without(entries, key), k) == if k == key {
                None
            } else {
                lookup(entries, k)
            },
{
    let after = without(entries, key);
    lemma_find(entries, key);
    if keys(entries).index_of_first(key) is Some {
        let at = keys(entries).index_of_first(key)->0;
        assert forall|i: int| 0 <= i < after.len() implies #[trigger] after[i] == if i < at {
            entries[i]
        } else {
            entries[i + 1]
        } by {}
        assert forall|i: int, j: int| 0 <= i < after.len() && 0 <= j < after.len() && i != j implies
            keys(after)[i] != keys(after)[j] by {
            let i0 = if i < at { i } else { i + 1 };
            let j0 = if j < at { j } else { j + 1 };
            assert(keys(after)[i] == keys(entries)[i0]);
            assert(keys(after)[j] == keys(entries)[j0]);
        }
        assert forall|k: Seq<char>| #![trigger lookup(after, k)] lookup(after, k) == (if k == key {
            None
        } else {
            lookup(entries, k)
        }) by {
            lemma_find(after, k);
            lemma_find(entries, k);
            if keys(after).index_of_first(k) is Some {
                let found = keys(after).index_of_first(k)->0;
                let found0 = if found < at { found } else { found + 1 };
                assert(after[found] == entries[found0]);
                assert(keys(entries)[found0] == k);
                assert(keys(entries)[at] == key);
                lemma_found_at(entries, found0);
            } else if k != key && keys(entries).index_of_first(k) is Some {
                let was = keys(entries).index_of_first(k)->0;
                let now = if was < at { was } else { was - 1 };
                assert(after[now] == entries[was]);
            }
        }
    } else {
        assert forall|k: Seq<char>| #![trigger lookup(after, k)] lookup(after, k) == (if k == key {
            None
        } else {
            lookup(entries, k)
        }) by {}
    }
}

/// Storing under a key that was taken out puts it last, and repeats no key.
pub proof fn lemma_renew<V>(entries: Seq<(Seq<char>, V)>, key: Seq<char>, value: V)
    requires
        distinct(entries),
    ensures
        put(without(entries, key), key, value) == without(entries, key).push((key, value)),
        distinct(without(entries, key).push((key, value))),
{
    lemma_without(entries, key);
    lemma_put(without(entries, key), key, value);
    assert(lookup(without(entries, key), key) is None);
}

/// A table without repeated keys has none without its first entry either, and
/// loses what is found under the key of that entry and nothing else.
pub proof fn lemma_drop_first<V>(entries: Seq<(Seq<char>, V)>)
    requires
        distinct(entries),
        entries.len() > 0,
    ensures
        entries.drop_first() == without(entries, entries[0].0),
        distinct(entries.drop_first()),
{
    lemma_found_at(entries, 0);
    lemma_without(entries, entries[0].0);
    assert(entries.drop_first() =~= entries.remove(0));
}

/// Replacing the values by their images commutes with looking up, storing and taking out.
pub proof fn lemma_image<V, W>(entries: Seq<(Seq<char>, V)>, f: spec_fn(V) -> W)
    ensures
        keys(image(entries, f)) == keys(entries),
        forall|k: Seq<char>|
            #![trigger lookup(image(entries, f), k)]
            lookup(image(entries, f), k) == match lookup(entries, k) {
                Some(v) => Some(f(v)),
                None => None,
            },
        forall|k: Seq<char>, v: V|
            #![trigger put(entries, k, v)]
            image(put(entries, k, v), f) == put(image(entries, f), k, f(v)),
        forall|k: Seq<char>|
            #![trigger without(entries, k)]
            image(without(entries, k), f) == without(image(entries, f), k),
{
    let im = image(entries, f);
    assert(keys(im) =~= keys(entries));
    assert forall|k: Seq<char>| #![trigger lookup(im, k)] lookup(im, k) == (match lookup(
        entries,
        k,
    ) {
        Some(v) => Some(f(v)),
        None => None,
    }) by {
        lemma_find(entries, k);
    }
    assert forall|k: Seq<char>, v: V| #![trigger put(entries, k, v)] image(put(entries, k, v), f)
        == put(im, k, f(v)) by {
        lemma_find(entries, k);
        assert(image(put(entries, k, v), f) =~= put(im, k, f(v)));
    }
    assert forall|k: Seq<char>| #![trigger without(entries, k)] image(without(entries, k), f)
        == without(im, k) by {
        lemma_find(entries, k);
        assert(image(without(entries, k), f) =~= without(im, k));
    }
}

/// One entry of a table.
#[derive(Debug, Clone)]
pub struct Entry<V> {
    pub key: String,
    pub value: V,
}

/// Values under string keys. New keys go to the end, so the first entry is the
/// oldest one.
#[derive(Debug, Clone)]
pub struct Table<V> {
    entries: Vec<Entry<V>>,
}

impl<V> View for Table<V> {
    type V = Seq<(Seq<char>, V)>;

    closed spec fn view(&self) -> Seq<(Seq<char>, V)> {
        self.entries@.map_values(|e: Entry<V>| (e.key@, e.value))
    }
}

impl<V> Table<V> {
    /// An empty table.
    pub fn new() -> (t: Self)
        ensures
            t@ == Seq::<(Seq<char>, V)>::empty(),
    {
        let t = Table { entries: Vec::new() };
        assert(t@ =~= Seq::<(Seq<char>, V)>::empty());
        t
    }

    /// The number of entries.
    pub fn len(&self) -> (n: usize)
        ensures
            n == self@.len(),
    {
        self.entries.len()
    }

    /// The place of the first entry under a key.
    pub fn position(&self, key: &String) -> (r: Option<usize>)
        ensures
            match r {
                Some(i) => keys(self@).index_of_first(key@) == Some(i as int) && i < self@.len()
                    && self@[i as int].0 == key@,
                None => keys(self@).index_of_first(key@) is None,
            },
    {
        let mut i: usize = 0;
        proof {
            keys(self@).index_of_first_ensures(key@);
        }
        while i < self.entries.len()
            invariant
                i <= self.entries@.len(),
                forall|j: int| 0 <= j < i ==> keys(self@)[j] != key@,
            decreases self.entries@.len() - i,
        {
            if self.entries[i].key == *key {
                proof {
                    assert(keys(self@)[i as int] == key@);
                    keys(self@).index_of_first_ensures(key@);
                }
                return Some(i);
            }
            assert(keys(self@)[i as int] != key@);
            i += 1;
        }
        None
    }

    /// The value under a key.
    pub fn get(&self, key: &String) -> (r: Option<&V>)
        ensures
            match lookup(self@, key@) {
                Some(v) => r == Some(&v),
                None => r is None,
            },
    {
        match self.position(key) {
            Some(i) => Some(&self.entries[i].value),
            None => None,
        }
    }

    /// The key of the entry at a place.
    pub fn key_at(&self, i: usize) -> (key: &String)
        requires
            i < self@.len(),
        ensures
            key@ == self@[i as int].0,
    {
        &self.entries[i].key
    }

    /// The value of the entry at a place, for change.
    pub fn value_mut(&mut self, i: usize) -> (value: &mut V)
        requires
            i < old(self)@.len(),
        ensures
            *value == old(self)@[i as int].1,
            final(self)@ == old(self)@.update(i as int, (old(self)@[i as int].0, *final(value))),
    {
        &mut self.entries[i].value
    }

    /// Stores a value under a key.
    pub fn put(&mut self, key: String, value: V)
        ensures
            final(self)@ == put(old(self)@, key@, value),
    {
        match self.position(&key) {
            Some(i) => {
                self.entries[i].value = value;
                assert(self@ =~= put(old(self)@, key@, value));
            },
            None => {
                self.entries.push(Entry { key, value });
                assert(self@ =~= put(old(self)@, key@, value));
            },
        }
    }

    /// Takes the entry under a key out.
    pub fn take(&mut self, key: &String) -> (r: Option<V>)
        ensures
            final(self)@ == without(old(self)@, key@),
            r == lookup(old(self)@, key@),
    {
        match self.position(key) {
            Some(i) => {
                let e = self.entries.remove(i);
                assert(self@ =~= without(old(self)@, key@));
                Some(e.value)
            },
            None => None,
        }
    }

    /// Takes the oldest entry out.
    pub fn take_first(&mut self) -> (e: Entry<V>)
        requires
            old(self)@.len() > 0,
        ensures
            final(self)@ == old(self)@.drop_first(),
            (e.key@, e.value) == old(self)@[0],
    {
        let e = self.entries.remove(0);
        assert(self@ =~= old(self)@.drop_first());
        e
    }
}

/// A key is found at the first entry that has it, with the value of that entry; it
/// is not found if no entry has it.
pub proof fn law_lookup<V>(entries: Seq<(Seq<char>, V)>, key: Seq<char>)
    ensures
        match lookup(entries, key) {
            Some(v) => exists|i: int|
                #![trigger entries[i]]
                0 <= i < entries.len() && entries[i].0 == key && entries[i].1 == v && forall|j: int|
                    0 <= j < i ==> (#[trigger] entries[j]).0 != key,
            None => forall|j: int| 0 <= j < entries.len() ==> (#[trigger] entries[j]).0 != key,
        },
{
    lemma_find(entries, key);
    if lookup(entries, key) is Some {
        let i = keys(entries).index_of_first(key)->0;
        assert(entries[i].0 == key);
    }
}

/// Storing under a key that no entry has puts a new entry at the end; storing under
/// a key that an entry has changes the first such entry, in its place.
pub proof fn law_put<V>(entries: Seq<(Seq<char>, V)>, key: Seq<char>, value: V)
    ensures
        (forall|j: int| 0 <= j < entries.len() ==> (#[trigger] entries[j]).0 != key) ==> put(
            entries,
            key,
            value,
        ) == entries.push((key, value)),
        forall|i: int|
            #![trigger entries[i]]
            0 <= i < entries.len() && entries[i].0 == key && (forall|j: int|
                0 <= j < i ==> (#[trigger] entries[j]).0 != key) ==> put(entries, key, value)
                == entries.update(i, (key, value)),
{
    lemma_find(entries, key);
    assert forall|i: int|
        #![trigger entries[i]]
        0 <= i < entries.len() && entries[i].0 == key && (forall|j: int|
            0 <= j < i ==> (#[trigger] entries[j]).0 != key) implies put(entries, key, value)
        == entries.update(i, (key, value)) by {
        let at = keys(entries).index_of_first(key)->0;
        assert(entries[at].0 == key);
        assert(at == i);
    }
}

/// Taking a key out removes the first entry that has it, and nothing if none has.
pub proof fn law_without<V>(entries: Seq<(Seq<char>, V)>, key: Seq<char>)
    ensures
        (forall|j: int| 0 <= j < entries.len() ==> (#[trigger] entries[j]).0 != key) ==> without(
            entries,
            key,
        ) == entries,
        forall|i: int|
            #![trigger entries[i]]
            0 <= i < entries.len() && entries[i].0 == key && (forall|j: int|
                0 <= j < i ==> (#[trigger] entries[j]).0 != key) ==> without(entries, key)
                == entries.remove(i),
{
    lemma_find(entries, key);
    assert forall|i: int|
        #![trigger entries[i]]
        0 <= i < entries.len() && entries[i].0 == key && (forall|j: int|
            0 <= j < i ==> (#[trigger] entries[j]).0 != key) implies without(entries, key)
        == entries.remove(i) by {
        let at = keys(entries).index_of_first(key)->0;
        assert(entries[at].0 == key);
        assert(at == i);
    }
}

/// A table repeats no key exactly if no two of its entries have the same one; then a
/// value is found under a key exactly if the table has that entry.
pub proof fn law_distinct<V>(entries: Seq<(Seq<char>, V)>)
    ensures
        distinct(entries) <==> forall|i: int, j: int|
            0 <= i < j < entries.len() ==> (#[trigger] entries[i]).0 != (#[trigger] entries[j]).0,
        distinct(entries) ==> forall|key: Seq<char>, value: V|
            #![trigger entries.contains((key, value))]
            lookup(entries, key) == Some(value) <==> entries.contains((key, value)),
{
    if distinct(entries) {
        assert forall|i: int, j: int| 0 <= i < j < entries.len() implies (#[trigger] entries[i]).0
            != (#[trigger] entries[j]).0 by {
            assert(keys(entries)[i] != keys(entries)[j]);
        }
        assert forall|key: Seq<char>, value: V| #![trigger entries.contains((key, value))]
            lookup(entries, key) == Some(value) <==> entries.contains((key, value)) by {
            lemma_find(entries, key);
            if lookup(entries, key) == Some(value) {
                let i = keys(entries).index_of_first(key)->0;
                assert(entries[i] == (key, value));
            }
            if entries.contains((key, value)) {
                let i = entries.index_of((key, value));
                assert(entries[i] == (key, value));
                lemma_found_at(entries, i);
            }
        }
    }
    if forall|i: int, j: int|
        0 <= i < j < entries.len() ==> (#[trigger] entries[i]).0 != (#[trigger] entries[j]).0 {
        assert forall|i: int, j: int|
            0 <= i < entries.len() && 0 <= j < entries.len() && i != j implies keys(entries)[i]
            != keys(entries)[j] by {
            let (a, b) = if i < j { (i, j) } else { (j, i) };
            assert(entries[a].0 != entries[b].0);
        }
    }
}

} // verus!
