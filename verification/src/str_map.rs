//! A map from text to values that keeps the order of insertion.
use crate::model::{map_views, opt_view};
use crate::text::{same_text, texts};
use vstd::prelude::*;

verus! {

/// The position of the entry with key `key`, or the number of entries.
pub open spec fn key_position<V>(entries: Seq<(Seq<char>, V)>, key: Seq<char>) -> nat
    decreases entries.len(),
{
    if entries.len() == 0 || entries[0].0 == key {
        0
    } else {
        1 + key_position(entries.skip(1), key)
    }
}

/// The value stored under `key`.
pub open spec fn entry_of<V>(entries: Seq<(Seq<char>, V)>, key: Seq<char>) -> Option<V> {
    let at = key_position(entries, key) as int;
    if at < entries.len() {
        Some(entries[at].1)
    } else {
        None
    }
}

/// The entries with `value` stored under `key`: in the place of the old value,
/// or else at the end.
pub open spec fn with_entry<V>(
    entries: Seq<(Seq<char>, V)>,
    key: Seq<char>,
    value: V,
) -> Seq<(Seq<char>, V)> {
    let at = key_position(entries, key) as int;
    if at < entries.len() {
        entries.update(at, (key, value))
    } else {
        entries.push((key, value))
    }
}

/// The entries without the one stored under `key`.
pub open spec fn without_entry<V>(
    entries: Seq<(Seq<char>, V)>,
    key: Seq<char>,
) -> Seq<(Seq<char>, V)> {
    let at = key_position(entries, key) as int;
    if at < entries.len() {
        entries.remove(at)
    } else {
        entries
    }
}

/// Whether no key occurs twice.
pub open spec fn distinct_keys<V>(entries: Seq<(Seq<char>, V)>) -> bool {
    forall|i: int, j: int|
        0 <= i < j < entries.len() ==> #[trigger] entries[i].0 != #[trigger] entries[j].0
}

pub open spec fn has_key<V>(entries: Seq<(Seq<char>, V)>, key: Seq<char>) -> bool {
    exists|i: int| 0 <= i < entries.len() && #[trigger] entries[i].0 == key
}

/// What `key_position` is: the first place where `key` stands.
pub proof fn lemma_key_position<V>(entries: Seq<(Seq<char>, V)>, key: Seq<char>)
    ensures
        key_position(entries, key) <= entries.len(),
        key_position(entries, key) < entries.len() ==> entries[key_position(
            entries,
            key,
        ) as int].0 == key,
        forall|i: int| 0 <= i < key_position(entries, key) ==> #[trigger] entries[i].0 != key,
        has_key(entries, key) <==> key_position(entries, key) < entries.len(),
    decreases entries.len(),
{
    if entries.len() > 0 && entries[0].0 != key {
        let rest = entries.skip(1);
        lemma_key_position(rest, key);
        assert forall|i: int| 0 <= i < key_position(entries, key) implies #[trigger] entries[i].0
            != key by {
            if i > 0 {
                assert(entries[i] == rest[i - 1]);
            }
        }
        if has_key(entries, key) {
            let i = choose|i: int| 0 <= i < entries.len() && #[trigger] entries[i].0 == key;
            assert(rest[i - 1].0 == key);
        }
        if has_key(rest, key) {
            let i = choose|i: int| 0 <= i < rest.len() && #[trigger] rest[i].0 == key;
            assert(entries[i + 1].0 == key);
        }
    }
}

/// The first place where `key` stands is its `key_position`.
pub proof fn lemma_key_position_is<V>(entries: Seq<(Seq<char>, V)>, key: Seq<char>, at: int)
    requires
        0 <= at <= entries.len(),
        forall|i: int| 0 <= i < at ==> #[trigger] entries[i].0 != key,
        at < entries.len() ==> entries[at].0 == key,
    ensures
        key_position(entries, key) == at,
{
    lemma_key_position(entries, key);
    let p = key_position(entries, key) as int;
    if p < at {
        assert(entries[p].0 != key);
    } else if p > at {
        assert(entries[at].0 != key);
    }
}

/// What is stored under a key after a change: the new value under the key
/// that was written, nothing under the key that was removed, the old value
/// under every other key.
pub proof fn lemma_entry_after_change<V>(
    entries: Seq<(Seq<char>, V)>,
    key: Seq<char>,
    value: V,
    other: Seq<char>,
)
    requires
        distinct_keys(entries),
    ensures
        distinct_keys(with_entry(entries, key, value)),
        distinct_keys(without_entry(entries, key)),
        entry_of(with_entry(entries, key, value), key) == Some(value),
        entry_of(without_entry(entries, key), key) is None,
        other != key ==> entry_of(with_entry(entries, key, value), other) == entry_of(
            entries,
            other,
        ),
        other != key ==> entry_of(without_entry(entries, key), other) == entry_of(entries, other),
{
    let at = key_position(entries, key) as int;
    let o = key_position(entries, other) as int;
    let w = with_entry(entries, key, value);
    let r = without_entry(entries, key);
    lemma_key_position(entries, key);
    lemma_key_position(entries, other);
    lemma_key_position_is(w, key, at);
    assert(distinct_keys(r)) by {
        assert forall|i: int, j: int| 0 <= i < j < r.len() implies #[trigger] r[i].0
            != #[trigger] r[j].0 by {
            if at < entries.len() {
                let i2 = if i < at { i } else { i + 1 };
                let j2 = if j < at { j } else { j + 1 };
                assert(r[i] == entries[i2] && r[j] == entries[j2]);
            }
        }
    }
    assert forall|i: int| 0 <= i < r.len() implies #[trigger] r[i].0 != key by {
        if at < entries.len() {
            let i2 = if i < at { i } else { i + 1 };
            assert(r[i] == entries[i2]);
        }
    }
    lemma_key_position_is(r, key, r.len() as int);
    if other != key {
        if at < entries.len() {
            assert forall|i: int| 0 <= i < o implies #[trigger] w[i].0 != other by {}
            lemma_key_position_is(w, other, o);
            let ro = if at < o { o - 1 } else { o };
            assert forall|i: int| 0 <= i < ro implies #[trigger] r[i].0 != other by {
                let i2 = if i < at { i } else { i + 1 };
                assert(r[i] == entries[i2]);
            }
            if o < entries.len() {
                assert(r[ro] == entries[o]);
            }
            lemma_key_position_is(r, other, ro);
        } else {
            let wo = if o < entries.len() { o } else { o + 1 };
            assert forall|i: int| 0 <= i < wo implies #[trigger] w[i].0 != other by {}
            lemma_key_position_is(w, other, wo);
        }
    }
}

/// The keys of a map, in order.
pub open spec fn keys_of<V>(entries: Seq<(Seq<char>, V)>) -> Seq<Seq<char>> {
    entries.map_values(|e: (Seq<char>, V)| e.0)
}

/// To take views of the values changes nothing about the keys.
pub proof fn lemma_map_views<V: View>(entries: Seq<(Seq<char>, V)>, key: Seq<char>)
    ensures
        key_position(map_views(entries), key) == key_position(entries, key),
        entry_of(map_views(entries), key) == opt_view(entry_of(entries, key)),
        has_key(map_views(entries), key) == has_key(entries, key),
        keys_of(map_views(entries)) == keys_of(entries),
        distinct_keys(map_views(entries)) == distinct_keys(entries),
        map_views(without_entry(entries, key)) == without_entry(map_views(entries), key),
        forall|value: V|
            map_views(#[trigger] with_entry(entries, key, value)) == with_entry(
                map_views(entries),
                key,
                value@,
            ),
{
    let viewed = map_views(entries);
    lemma_key_position(entries, key);
    lemma_key_position(viewed, key);
    lemma_key_position_is(viewed, key, key_position(entries, key) as int);
    assert(keys_of(viewed) =~= keys_of(entries));
    assert forall|i: int| 0 <= i < entries.len() implies #[trigger] viewed[i].0
        == #[trigger] entries[i].0 by {}
    if distinct_keys(entries) {
        assert forall|i: int, j: int| 0 <= i < j < viewed.len() implies #[trigger] viewed[i].0
            != #[trigger] viewed[j].0 by {
            assert(entries[i].0 != entries[j].0);
        }
    }
    if distinct_keys(viewed) {
        assert forall|i: int, j: int| 0 <= i < j < entries.len() implies #[trigger] entries[i].0
            != #[trigger] entries[j].0 by {
            assert(viewed[i].0 != viewed[j].0);
        }
    }
    assert(map_views(without_entry(entries, key)) =~= without_entry(viewed, key));
    assert forall|value: V|
        map_views(#[trigger] with_entry(entries, key, value)) == with_entry(
            viewed,
            key,
            value@,
        ) by {
        assert(map_views(with_entry(entries, key, value)) =~= with_entry(viewed, key, value@));
    }
}

/// A map from text to `V`; iteration follows the order of insertion.
pub struct StrMap<V> {
    items: Vec<(String, V)>,
}

impl<V> View for StrMap<V> {
    type V = Seq<(Seq<char>, V)>;

    closed spec fn view(&self) -> Seq<(Seq<char>, V)> {
        self.items@.map_values(|e: (String, V)| (e.0@, e.1))
    }
}

impl<V> StrMap<V> {
    /// No key occurs twice.
    #[verifier::type_invariant]
    spec fn inv(self) -> bool {
        distinct_keys(self@)
    }

    /// An empty map.
    pub fn new() -> (r: Self)
        ensures
            r@ == Seq::<(Seq<char>, V)>::empty(),
    {
        let items: Vec<(String, V)> = Vec::new();
        let r = StrMap { items };
        assert(r@ =~= Seq::<(Seq<char>, V)>::empty());
        r
    }

    /// The number of entries.
    pub fn len(&self) -> (n: usize)
        ensures
            n == self@.len(),
            distinct_keys(self@),
    {
        proof {
            use_type_invariant(self);
        }
        self.items.len()
    }

    pub fn is_empty(&self) -> (r: bool)
        ensures
            r == (self@.len() == 0),
    {
        self.items.len() == 0
    }

    /// The place of `key`, or the number of entries.
    fn find(&self, key: &str) -> (at: usize)
        ensures
            at == key_position(self@, key@),
            at <= self@.len(),
    {
        let mut i: usize = 0;
        while i < self.items.len()
            invariant
                i <= self.items@.len(),
                self@.len() == self.items@.len(),
                forall|j: int| 0 <= j < i ==> #[trigger] self@[j].0 != key@,
            decreases self.items@.len() - i,
        {
            assert(self@[i as int] == (self.items@[i as int].0@, self.items@[i as int].1));
            if same_text(self.items[i].0.as_str(), key) {
                proof {
                    lemma_key_position_is(self@, key@, i as int);
                }
                return i;
            }
            i += 1;
        }
        proof {
            lemma_key_position_is(self@, key@, i as int);
        }
        i
    }

    /// The value under `key`.
    pub fn get(&self, key: &str) -> (r: Option<&V>)
        ensures
            match r {
                Some(v) => entry_of(self@, key@) == Some(*v),
                None => entry_of(self@, key@) is None,
            },
    {
        let at = self.find(key);
        if at < self.items.len() {
            Some(&self.items[at].1)
        } else {
            None
        }
    }

    /// Whether something is stored under `key`.
    pub fn contains_key(&self, key: &str) -> (r: bool)
        ensures
            r == has_key(self@, key@),
            r == (entry_of(self@, key@) is Some),
    {
        proof {
            lemma_key_position(self@, key@);
        }
        self.find(key) < self.items.len()
    }

    /// Stores `value` under `key`, in place of what stood there.
    pub fn insert(&mut self, key: String, value: V)
        ensures
            final(self)@ == with_entry(old(self)@, key@, value),
    {
        proof {
            use_type_invariant(&*self);
            lemma_entry_after_change(self@, key@, value, key@);
        }
        let at = self.find(key.as_str());
        let ghost before = self@;
        let mut items: Vec<(String, V)> = Vec::new();
        core::mem::swap(&mut items, &mut self.items);
        let ghost rows = items@;
        assert(before =~= rows.map_values(|e: (String, V)| (e.0@, e.1)));
        if at < items.len() {
            items[at] = (key, value);
        } else {
            items.push((key, value));
        }
        assert(items@.map_values(|e: (String, V)| (e.0@, e.1)) =~= with_entry(before, key@, value));
        self.items = items;
    }

    /// Takes out what is stored under `key`; tells whether there was anything.
    pub fn remove(&mut self, key: &str) -> (r: bool)
        ensures
            final(self)@ == without_entry(old(self)@, key@),
            r == has_key(old(self)@, key@),
    {
        let at = self.find(key);
        let n = self.items.len();
        proof {
            use_type_invariant(&*self);
            lemma_key_position(self@, key@);
        }
        if at < n {
            let ghost before = self@;
            proof {
                lemma_entry_after_change(before, key@, self.items@[0].1, key@);
            }
            let mut items: Vec<(String, V)> = Vec::new();
            core::mem::swap(&mut items, &mut self.items);
            let ghost rows = items@;
            assert(before =~= rows.map_values(|e: (String, V)| (e.0@, e.1)));
            let _ = items.remove(at);
            assert(items@.map_values(|e: (String, V)| (e.0@, e.1)) =~= without_entry(before, key@));
            self.items = items;
            true
        } else {
            false
        }
    }

    /// The key of the `i`-th entry.
    pub fn key_at(&self, i: usize) -> (r: &String)
        requires
            i < self@.len(),
        ensures
            r@ == self@[i as int].0,
    {
        &self.items[i].0
    }

    /// The value of the `i`-th entry.
    pub fn value_at(&self, i: usize) -> (r: &V)
        requires
            i < self@.len(),
        ensures
            *r == self@[i as int].1,
    {
        &self.items[i].1
    }

    /// The keys, in order.
    pub fn keys(&self) -> (r: Vec<String>)
        ensures
            texts(r@) == keys_of(self@),
    {
        let mut r: Vec<String> = Vec::new();
        let mut i: usize = 0;
        while i < self.items.len()
            invariant
                i <= self.items@.len(),
                self@.len() == self.items@.len(),
                r@.len() == i,
                forall|j: int| 0 <= j < i ==> r@[j]@ == #[trigger] self@[j].0,
            decreases self.items@.len() - i,
        {
            r.push(self.items[i].0.clone());
            assert(self@[i as int].0 == self.items@[i as int].0@);
            i += 1;
        }
        assert(texts(r@) =~= keys_of(self@));
        r
    }
}

impl<V: Clone> Clone for StrMap<V> {
    fn clone(&self) -> (r: Self)
        ensures
            r@.len() == self@.len(),
            forall|i: int|
                #![trigger r@[i]]
                0 <= i < r@.len() ==> r@[i].0 == self@[i].0 && cloned::<V>(self@[i].1, r@[i].1),
    {
        proof {
            use_type_invariant(self);
        }
        let mut items: Vec<(String, V)> = Vec::new();
        let mut i: usize = 0;
        while i < self.items.len()
            invariant
                i <= self.items@.len(),
                items@.len() == i,
                forall|j: int|
                    #![trigger items@[j]]
                    0 <= j < i ==> items@[j].0@ == self.items@[j].0@ && cloned::<V>(
                        self.items@[j].1,
                        items@[j].1,
                    ),
            decreases self.items@.len() - i,
        {
            let v = self.items[i].1.clone();
            items.push((self.items[i].0.clone(), v));
            i += 1;
        }
        let ghost rows = items@.map_values(|e: (String, V)| (e.0@, e.1));
        assert forall|a: int, b: int| 0 <= a < b < rows.len() implies #[trigger] rows[a].0
            != #[trigger] rows[b].0 by {
            assert(self@[a].0 != self@[b].0);
            assert(items@[a].0@ == self.items@[a].0@);
            assert(items@[b].0@ == self.items@[b].0@);
        }
        let r = StrMap { items };
        assert forall|j: int| #![trigger r@[j]] 0 <= j < r@.len() implies r@[j].0 == self@[j].0
            && cloned::<V>(self@[j].1, r@[j].1) by {
            assert(items@[j].0@ == self.items@[j].0@);
        }
        r
    }
}

/// A key that stands in a map keeps its place when its value is replaced, a new key comes
/// last, and to take out a key leaves the others in their order.
pub proof fn entries_stay_in_order<V>(
    entries: Seq<(Seq<char>, V)>,
    key: Seq<char>,
    value: V,
    k: int,
)
    requires
        0 <= k <= entries.len(),
        forall|i: int| 0 <= i < k ==> (#[trigger] entries[i]).0 != key,
        k < entries.len() ==> entries[k].0 == key,
    ensures
        entry_of(entries, key) == if k < entries.len() {
            Some(entries[k].1)
        } else {
            None
        },
        k < entries.len() ==> with_entry(entries, key, value) == entries.take(k).push(
            (key, value),
        ) + entries.skip(k + 1),
        k == entries.len() ==> with_entry(entries, key, value) == entries.push((key, value)),
        k < entries.len() ==> without_entry(entries, key) == entries.take(k) + entries.skip(k + 1),
        k == entries.len() ==> without_entry(entries, key) == entries,
        has_key(entries, key) <==> k < entries.len(),
{
    lemma_key_position_is(entries, key, k);
    lemma_key_position(entries, key);
    if k < entries.len() {
        assert(with_entry(entries, key, value) =~= entries.take(k).push((key, value))
            + entries.skip(k + 1));
        assert(without_entry(entries, key) =~= entries.take(k) + entries.skip(k + 1));
    }
}

} // verus!
