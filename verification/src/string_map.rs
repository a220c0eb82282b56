//! An insertion-ordered map with text keys.
//!
//! Keys are compared by their characters, so the contracts speak of a key by its view.
//! Entries keep the order in which their keys first arrived, which makes every walk
//! over a map deterministic.
use vstd::prelude::*;

verus! {

/// The map that binds each key of `keys` to the value at the same position of `values`.
pub open spec fn map_of<T>(keys: Seq<Seq<char>>, values: Seq<T>) -> Map<Seq<char>, T> {
    Map::new(|k: Seq<char>| keys.contains(k), |k: Seq<char>| values[keys.index_of(k)])
}

/// Among distinct keys, the key at position `i` is found at `i` and bound to the value there.
pub proof fn lemma_map_of_at<T>(keys: Seq<Seq<char>>, values: Seq<T>, i: int)
    requires
        keys.no_duplicates(),
        0 <= i < keys.len(),
    ensures
        keys.contains(keys[i]),
        keys.index_of(keys[i]) == i,
        map_of(keys, values).contains_key(keys[i]),
        map_of(keys, values)[keys[i]] == values[i],
{
    assert(keys.contains(keys[i]));
    let j = keys.index_of(keys[i]);
    assert(0 <= j < keys.len() && keys[j] == keys[i]);
}

/// Appending a fresh key with its value is an insertion into the map.
pub proof fn lemma_map_of_push<T>(keys: Seq<Seq<char>>, values: Seq<T>, k: Seq<char>, v: T)
    requires
        keys.no_duplicates(),
        keys.len() == values.len(),
        !keys.contains(k),
    ensures
        keys.push(k).no_duplicates(),
        map_of(keys.push(k), values.push(v)) == map_of(keys, values).insert(k, v),
{
    let keys2 = keys.push(k);
    let values2 = values.push(v);
    assert forall|i: int, j: int| 0 <= i < keys2.len() && 0 <= j < keys2.len() && i != j implies keys2[i]
        != keys2[j] by {
        if i < keys.len() {
            assert(keys.contains(keys[i]));
        }
        if j < keys.len() {
            assert(keys.contains(keys[j]));
        }
    }
    assert forall|x: Seq<char>| #[trigger]
        map_of(keys2, values2).contains_key(x) == map_of(keys, values).insert(k, v).contains_key(
            x,
        ) by {
        if keys2.contains(x) {
            let i = keys2.index_of(x);
            if i < keys.len() {
                assert(keys[i] == x);
            }
        }
        if keys.contains(x) {
            let i = keys.index_of(x);
            assert(keys2[i] == x);
        }
        if x == k {
            assert(keys2[keys.len() as int] == x);
        }
    }
    assert forall|x: Seq<char>| #[trigger]
        map_of(keys2, values2).contains_key(x) implies map_of(keys2, values2)[x] == map_of(
        keys,
        values,
    ).insert(k, v)[x] by {
        let i = keys2.index_of(x);
        lemma_map_of_at(keys2, values2, i);
        if i < keys.len() {
            lemma_map_of_at(keys, values, i);
        }
    }
    assert(map_of(keys2, values2) =~= map_of(keys, values).insert(k, v));
}

/// Replacing the value at position `i` is an insertion under the key at `i`.
pub proof fn lemma_map_of_update<T>(keys: Seq<Seq<char>>, values: Seq<T>, i: int, v: T)
    requires
        keys.no_duplicates(),
        keys.len() == values.len(),
        0 <= i < keys.len(),
    ensures
        map_of(keys, values.update(i, v)) == map_of(keys, values).insert(keys[i], v),
{
    let values2 = values.update(i, v);
    lemma_map_of_at(keys, values, i);
    assert forall|x: Seq<char>| #[trigger]
        map_of(keys, values2).contains_key(x) implies map_of(keys, values2)[x] == map_of(
        keys,
        values,
    ).insert(keys[i], v)[x] by {
        let j = keys.index_of(x);
        lemma_map_of_at(keys, values2, j);
        lemma_map_of_at(keys, values, j);
    }
    assert(map_of(keys, values2) =~= map_of(keys, values).insert(keys[i], v));
}

/// Dropping position `i` from both sequences removes the key at `i` from the map.
pub proof fn lemma_map_of_remove<T>(keys: Seq<Seq<char>>, values: Seq<T>, i: int)
    requires
        keys.no_duplicates(),
        keys.len() == values.len(),
        0 <= i < keys.len(),
    ensures
        keys.remove(i).no_duplicates(),
        map_of(keys.remove(i), values.remove(i)) == map_of(keys, values).remove(keys[i]),
{
    let keys2 = keys.remove(i);
    let values2 = values.remove(i);
    assert(keys2.no_duplicates());
    assert forall|x: Seq<char>| #[trigger]
        map_of(keys2, values2).contains_key(x) == map_of(keys, values).remove(
            keys[i],
        ).contains_key(x) by {
        if keys2.contains(x) {
            let j = keys2.index_of(x);
            if j < i {
                assert(keys[j] == x);
            } else {
                assert(keys[j + 1] == x);
            }
        }
        if keys.contains(x) && x != keys[i] {
            let j = keys.index_of(x);
            if j < i {
                assert(keys2[j] == x);
            } else {
                assert(keys2[j - 1] == x);
            }
        }
    }
    assert forall|x: Seq<char>| #[trigger]
        map_of(keys2, values2).contains_key(x) implies map_of(keys2, values2)[x] == map_of(
        keys,
        values,
    ).remove(keys[i])[x] by {
        let j = keys2.index_of(x);
        lemma_map_of_at(keys2, values2, j);
        if j < i {
            lemma_map_of_at(keys, values, j);
        } else {
            lemma_map_of_at(keys, values, j + 1);
        }
    }
    assert(map_of(keys2, values2) =~= map_of(keys, values).remove(keys[i]));
}

/// A finite map from text keys to values that remembers the order of first insertion.
///
/// The derived `==` holds of two maps with the same entries in the same order.
#[derive(Clone, Debug, PartialEq, Eq)]
pub struct StringMap<T> {
    keys: Vec<String>,
    values: Vec<T>,
}

impl<T> View for StringMap<T> {
    type V = Map<Seq<char>, T>;

    /// The map that binds each key of `key_seq` to the value at its position.
    open spec fn view(&self) -> Map<Seq<char>, T> {
        map_of(self.key_seq(), self.value_seq())
    }
}

impl<T> StringMap<T> {
    /// The keys in order of first insertion.
    pub closed spec fn key_seq(&self) -> Seq<Seq<char>> {
        self.keys@.map_values(|k: String| k@)
    }

    /// The values, each at the position of its key in `key_seq`.
    pub closed spec fn value_seq(&self) -> Seq<T> {
        self.values@
    }

    /// Every key has exactly one value and no key occurs twice.
    pub open spec fn wf(&self) -> bool {
        &&& self.key_seq().len() == self.value_seq().len()
        &&& self.key_seq().no_duplicates()
    }

    /// In a well-formed map the key at each position is bound to the value there, and
    /// every bound key stands at exactly one position.
    pub proof fn lemma_entries(&self)
        requires
            self.wf(),
        ensures
            forall|i: int|
                0 <= i < self.key_seq().len() ==> {
                    &&& self@.contains_key(#[trigger] self.key_seq()[i])
                    &&& self@[self.key_seq()[i]] == self.value_seq()[i]
                    &&& self.key_seq().index_of(self.key_seq()[i]) == i
                },
            forall|k: Seq<char>| #[trigger]
                self@.contains_key(k) ==> {
                    &&& 0 <= self.key_seq().index_of(k) < self.key_seq().len()
                    &&& self.key_seq()[self.key_seq().index_of(k)] == k
                    &&& self@[k] == self.value_seq()[self.key_seq().index_of(k)]
                },
    {
        assert forall|i: int| 0 <= i < self.key_seq().len() implies {
            &&& self@.contains_key(#[trigger] self.key_seq()[i])
            &&& self@[self.key_seq()[i]] == self.value_seq()[i]
            &&& self.key_seq().index_of(self.key_seq()[i]) == i
        } by {
            lemma_map_of_at(self.key_seq(), self.value_seq(), i);
        }
    }

    /// An empty map.
    pub fn new() -> (m: Self)
        ensures
            m.key_seq() == Seq::<Seq<char>>::empty(),
            m.value_seq() == Seq::<T>::empty(),
            m@ == Map::<Seq<char>, T>::empty(),
            m.wf(),
    {
        let m = StringMap { keys: Vec::new(), values: Vec::new() };
        assert(m.key_seq() =~= Seq::<Seq<char>>::empty());
        assert(m@ =~= Map::<Seq<char>, T>::empty());
        m
    }

    /// The number of entries.
    pub fn len(&self) -> (n: usize)
        requires
            self.wf(),
        ensures
            n == self.key_seq().len(),
            n == self.value_seq().len(),
    {
        self.keys.len()
    }

    /// Whether the map has no entry.
    pub fn is_empty(&self) -> (b: bool)
        ensures
            b == (self.key_seq().len() == 0),
    {
        self.keys.len() == 0
    }

    /// The keys in order of first insertion.
    pub fn keys(&self) -> (r: &Vec<String>)
        ensures
            r@.len() == self.key_seq().len(),
            forall|i: int| 0 <= i < r@.len() ==> (#[trigger] r@[i])@ == self.key_seq()[i],
    {
        &self.keys
    }

    /// The values, each at the position of its key in `keys`.
    pub fn values(&self) -> (r: &Vec<T>)
        ensures
            r@ == self.value_seq(),
    {
        &self.values
    }

    /// The position of `key` among the keys, if it is present.
    fn position(&self, key: &str) -> (r: Option<usize>)
        requires
            self.wf(),
        ensures
            match r {
                Some(i) => i < self.key_seq().len() && self.key_seq()[i as int] == key@
                    && self.key_seq().index_of(key@) == i,
                None => !self.key_seq().contains(key@),
            },
    {
        let wanted = key.to_owned();
        let mut i: usize = 0;
        while i < self.keys.len()
            invariant
                i <= self.keys.len(),
                wanted@ == key@,
                self.wf(),
                forall|j: int| 0 <= j < i ==> self.key_seq()[j] != key@,
            decreases self.keys.len() - i,
        {
            if self.keys[i] == wanted {
                proof {
                    lemma_map_of_at(self.key_seq(), self.value_seq(), i as int);
                }
                return Some(i);
            }
            i += 1;
        }
        None
    }

    /// Whether `key` is bound.
    pub fn contains_key(&self, key: &str) -> (b: bool)
        requires
            self.wf(),
        ensures
            b == self@.contains_key(key@),
    {
        self.position(key).is_some()
    }

    /// The value bound to `key`, if any.
    pub fn get(&self, key: &str) -> (r: Option<&T>)
        requires
            self.wf(),
        ensures
            match r {
                Some(v) => self@.contains_key(key@) && *v == self@[key@],
                None => !self@.contains_key(key@),
            },
    {
        match self.position(key) {
            Some(i) => Some(&self.values[i]),
            None => None,
        }
    }

    /// A mutable borrow of the value bound to `key`, if any. Writing through it changes
    /// that value and nothing else.
    pub fn get_mut(&mut self, key: &str) -> (r: Option<&mut T>)
        requires
            old(self).wf(),
        ensures
            final(self).wf(),
            final(self).key_seq() == old(self).key_seq(),
            match r {
                Some(v) => {
                    &&& old(self)@.contains_key(key@)
                    &&& *v == old(self)@[key@]
                    &&& final(self).value_seq() == old(self).value_seq().update(
                        old(self).key_seq().index_of(key@),
                        *final(v),
                    )
                    &&& final(self)@ == old(self)@.insert(key@, *final(v))
                },
                None => {
                    &&& !old(self)@.contains_key(key@)
                    &&& final(self).value_seq() == old(self).value_seq()
                    &&& final(self)@ == old(self)@
                },
            },
    {
        match self.position(key) {
            Some(i) => {
                proof {
                    let keys = self.key_seq();
                    let values = self.value_seq();
                    assert forall|x: T| #[trigger]
                        map_of(keys, values.update(i as int, x)) == map_of(keys, values).insert(
                            key@,
                            x,
                        ) by {
                        lemma_map_of_update(keys, values, i as int, x);
                    }
                }
                Some(&mut self.values[i])
            },
            None => None,
        }
    }

    /// Binds `key` to `value`. A key that was already bound keeps its position and
    /// hands back its former value; a new key goes to the end.
    pub fn insert(&mut self, key: String, value: T) -> (previous: Option<T>)
        requires
            old(self).wf(),
        ensures
            final(self).wf(),
            final(self)@ == old(self)@.insert(key@, value),
            old(self).inserted(final(self), key@, value),
            previous == if old(self)@.contains_key(key@) {
                Some(old(self)@[key@])
            } else {
                None
            },
    {
        match self.position(key.as_str()) {
            Some(i) => {
                let mut slot = value;
                std::mem::swap(&mut self.values[i], &mut slot);
                proof {
                    lemma_map_of_update(old(self).key_seq(), old(self).value_seq(), i as int, value);
                }
                Some(slot)
            },
            None => {
                self.keys.push(key);
                self.values.push(value);
                proof {
                    assert(self.key_seq() =~= old(self).key_seq().push(key@));
                    lemma_map_of_push(old(self).key_seq(), old(self).value_seq(), key@, value);
                }
                None
            },
        }
    }

    /// Unbinds `key` and hands back its value, if it was bound. The other entries keep
    /// their order.
    pub fn remove(&mut self, key: &str) -> (removed: Option<T>)
        requires
            old(self).wf(),
        ensures
            final(self).wf(),
            final(self)@ == old(self)@.remove(key@),
            old(self).removed(final(self), key@),
            removed == if old(self)@.contains_key(key@) {
                Some(old(self)@[key@])
            } else {
                None
            },
    {
        match self.position(key) {
            Some(i) => {
                self.keys.remove(i);
                let v = self.values.remove(i);
                proof {
                    assert(self.key_seq() =~= old(self).key_seq().remove(i as int));
                    lemma_map_of_remove(old(self).key_seq(), old(self).value_seq(), i as int);
                }
                Some(v)
            },
            None => {
                proof {
                    assert(self@ =~= old(self)@.remove(key@));
                }
                None
            },
        }
    }
}

impl<T> StringMap<T> {
    /// `after` is this map with `key` bound to `value`: a key that was bound keeps its
    /// position, a new key stands at the end.
    pub open spec fn inserted(&self, after: &Self, key: Seq<char>, value: T) -> bool {
        if self@.contains_key(key) {
            &&& after.key_seq() == self.key_seq()
            &&& after.value_seq() == self.value_seq().update(self.key_seq().index_of(key), value)
        } else {
            &&& after.key_seq() == self.key_seq().push(key)
            &&& after.value_seq() == self.value_seq().push(value)
        }
    }

    /// `after` is this map without `key`, the other entries in their old order.
    pub open spec fn removed(&self, after: &Self, key: Seq<char>) -> bool {
        if self@.contains_key(key) {
            &&& after.key_seq() == self.key_seq().remove(self.key_seq().index_of(key))
            &&& after.value_seq() == self.value_seq().remove(self.key_seq().index_of(key))
        } else {
            &&& after.key_seq() == self.key_seq()
            &&& after.value_seq() == self.value_seq()
        }
    }
}

/// A vector with the same texts in the same order.
fn copy_texts(texts: &Vec<String>) -> (copy: Vec<String>)
    ensures
        copy@ == texts@,
{
    let mut copy: Vec<String> = Vec::new();
    let mut i: usize = 0;
    while i < texts.len()
        invariant
            i <= texts@.len(),
            copy@ == texts@.take(i as int),
        decreases texts@.len() - i,
    {
        copy.push(texts[i].clone());
        assert(copy@ =~= texts@.take(i as int + 1));
        i += 1;
    }
    assert(copy@ =~= texts@);
    copy
}

impl StringMap<String> {
    /// A map with the same entries in the same order.
    pub fn text_copy(&self) -> (copy: Self)
        ensures
            copy.key_seq() == self.key_seq(),
            copy.value_seq() == self.value_seq(),
            copy@ == self@,
            copy.wf() == self.wf(),
    {
        let keys = copy_texts(&self.keys);
        let values = copy_texts(&self.values);
        StringMap { keys, values }
    }

    /// The map with each value taken by its characters.
    pub open spec fn text_view(&self) -> Map<Seq<char>, Seq<char>> {
        self@.map_values(|v: String| v@)
    }

    /// The values by their characters, in the order of the keys.
    pub open spec fn text_values(&self) -> Seq<Seq<char>> {
        self.value_seq().map_values(|v: String| v@)
    }
}

impl StringMap<StringMap<String>> {
    /// A table with copies of the same maps under the same keys, all in the same order.
    pub fn table_copy(&self) -> (copy: Self)
        ensures
            copy.key_seq() == self.key_seq(),
            copy.value_seq().len() == self.value_seq().len(),
            forall|g: int|
                0 <= g < copy.value_seq().len() ==> (#[trigger] copy.value_seq()[g]).key_seq()
                    == self.value_seq()[g].key_seq() && copy.value_seq()[g].value_seq()
                    == self.value_seq()[g].value_seq(),
    {
        let keys = copy_texts(&self.keys);
        let mut values: Vec<StringMap<String>> = Vec::new();
        let mut j: usize = 0;
        while j < self.values.len()
            invariant
                j <= self.values@.len(),
                values@.len() == j,
                forall|g: int|
                    0 <= g < j ==> (#[trigger] values@[g]).key_seq() == self.values@[g].key_seq()
                        && values@[g].value_seq() == self.values@[g].value_seq(),
            decreases self.values@.len() - j,
        {
            values.push(self.values[j].text_copy());
            j += 1;
        }
        StringMap { keys, values }
    }
}

} // verus!
