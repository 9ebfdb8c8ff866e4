//! Attribute lists: keys with their values, in the order in which they were set.

use vstd::prelude::*;
use crate::text::same_text;

verus! {

/// The attributes of an element: pairs of a key and its value.
pub type Attrs = Seq<(Seq<char>, Seq<char>)>;

/// The first index at or after `from` whose pair has the key, or the length.
pub open spec fn key_at(attrs: Attrs, key: Seq<char>, from: int) -> int
    decreases attrs.len() - from,
{
    if from < 0 || from >= attrs.len() {
        attrs.len() as int
    } else if attrs[from].0 == key {
        from
    } else {
        key_at(attrs, key, from + 1)
    }
}

/// Whether a key has a value.
pub open spec fn has_key(attrs: Attrs, key: Seq<char>) -> bool {
    key_at(attrs, key, 0) < attrs.len()
}

/// The value of a key that has one: the first that was set.
pub open spec fn value_of(attrs: Attrs, key: Seq<char>) -> Seq<char> {
    attrs[key_at(attrs, key, 0)].1
}

/// The value of a key, if it has one.
pub open spec fn lookup(attrs: Attrs, key: Seq<char>) -> Option<Seq<char>> {
    if has_key(attrs, key) {
        Some(value_of(attrs, key))
    } else {
        None
    }
}

/// The list with one more pair, unless the key has a value already.
pub open spec fn with_attr(attrs: Attrs, key: Seq<char>, value: Seq<char>) -> Attrs {
    if has_key(attrs, key) {
        attrs
    } else {
        attrs.push((key, value))
    }
}

/// Whether every key of `earlier` has the same value in `later`.
pub open spec fn keeps(later: Attrs, earlier: Attrs) -> bool {
    forall|key: Seq<char>| #[trigger]
        has_key(earlier, key) ==> has_key(later, key) && value_of(later, key) == value_of(
            earlier,
            key,
        )
}

/// The index that [`key_at`] gives is in range, holds the key where it is an
/// index, and is the first that does.
pub proof fn lemma_key_at(attrs: Attrs, key: Seq<char>, from: int)
    requires
        0 <= from <= attrs.len(),
    ensures
        from <= key_at(attrs, key, from) <= attrs.len(),
        key_at(attrs, key, from) < attrs.len() ==> attrs[key_at(attrs, key, from)].0 == key,
        forall|i: int| from <= i < key_at(attrs, key, from) ==> (#[trigger] attrs[i]).0 != key,
    decreases attrs.len() - from,
{
    if from < attrs.len() && attrs[from].0 != key {
        lemma_key_at(attrs, key, from + 1);
    }
}

/// Setting a key leaves every value that was set before as it was.
pub proof fn lemma_push_key(attrs: Attrs, pair: (Seq<char>, Seq<char>), key: Seq<char>, from: int)
    requires
        0 <= from <= attrs.len(),
    ensures
        key_at(attrs.push(pair), key, from) == if key_at(attrs, key, from) < attrs.len() {
            key_at(attrs, key, from)
        } else if pair.0 == key {
            attrs.len() as int
        } else {
            (attrs.len() + 1) as int
        },
    decreases attrs.len() - from,
{
    let longer = attrs.push(pair);
    if from < attrs.len() {
        assert(longer[from] == attrs[from]);
        if attrs[from].0 != key {
            lemma_push_key(attrs, pair, key, from + 1);
        }
    } else {
        assert(longer[from] == pair);
        if pair.0 != key {
            assert(key_at(longer, key, from + 1) == longer.len());
        }
    }
}

/// A key that is set once keeps its value whatever is set afterwards.
pub proof fn lemma_with_attr_keeps(attrs: Attrs, key: Seq<char>, value: Seq<char>)
    ensures
        keeps(with_attr(attrs, key, value), attrs),
        has_key(with_attr(attrs, key, value), key),
        !has_key(attrs, key) ==> value_of(with_attr(attrs, key, value), key) == value,
{
    assert forall|k: Seq<char>| #[trigger] has_key(attrs, k) implies has_key(
        with_attr(attrs, key, value),
        k,
    ) && value_of(with_attr(attrs, key, value), k) == value_of(attrs, k) by {
        lemma_push_key(attrs, (key, value), k, 0);
        lemma_key_at(attrs, k, 0);
    }
    lemma_push_key(attrs, (key, value), key, 0);
    lemma_key_at(attrs, key, 0);
}

/// What keeps what keeps a list keeps the list.
pub proof fn lemma_keeps_trans(a: Attrs, b: Attrs, c: Attrs)
    requires
        keeps(b, a),
        keeps(c, b),
    ensures
        keeps(c, a),
{
    assert forall|k: Seq<char>| #[trigger] has_key(a, k) implies has_key(c, k) && value_of(c, k)
        == value_of(a, k) by {
        assert(has_key(b, k));
    }
}

/// The views of a list of owned pairs.
pub open spec fn pair_views(v: Seq<(String, String)>) -> Attrs {
    Seq::new(v.len(), |i: int| (v[i].0@, v[i].1@))
}

/// An attribute list in which the first value set for a key stays.
#[derive(Debug)]
pub struct AttrMap {
    pub entries: Vec<(String, String)>,
}

impl View for AttrMap {
    type V = Attrs;

    open spec fn view(&self) -> Attrs {
        pair_views(self.entries@)
    }
}

impl AttrMap {
    /// An empty list.
    pub fn new() -> (r: AttrMap)
        ensures
            r@ == Seq::<(Seq<char>, Seq<char>)>::empty(),
    {
        let r = AttrMap { entries: Vec::new() };
        assert(r@ =~= Seq::<(Seq<char>, Seq<char>)>::empty());
        r
    }

    /// The number of pairs.
    pub fn len(&self) -> (n: usize)
        ensures
            n == self@.len(),
    {
        self.entries.len()
    }

    /// The index of the pair that gives `key` its value, or the length.
    pub fn position(&self, key: &str) -> (i: usize)
        ensures
            i == key_at(self@, key@, 0),
            i <= self@.len(),
    {
        let mut i: usize = 0;
        while i < self.entries.len()
            invariant
                i <= self.entries.len(),
                key_at(self@, key@, i as int) == key_at(self@, key@, 0),
            decreases self.entries.len() - i,
        {
            assert(self@[i as int].0 == self.entries[i as int].0@);
            if same_text(self.entries[i].0.as_str(), key) {
                return i;
            }
            i += 1;
        }
        i
    }

    /// Whether a key has a value.
    pub fn contains_key(&self, key: &str) -> (r: bool)
        ensures
            r == has_key(self@, key@),
    {
        self.position(key) < self.entries.len()
    }

    /// The value of a key, if it has one.
    pub fn get(&self, key: &str) -> (r: Option<&String>)
        ensures
            match r {
                Some(v) => lookup(self@, key@) == Some(v@),
                None => lookup(self@, key@) is None,
            },
    {
        let i = self.position(key);
        if i < self.entries.len() {
            Some(&self.entries[i].1)
        } else {
            None
        }
    }

    /// The key of the pair at an index.
    pub fn key(&self, i: usize) -> (r: &String)
        requires
            i < self@.len(),
        ensures
            r@ == self@[i as int].0,
    {
        &self.entries[i].0
    }

    /// The value of the pair at an index.
    pub fn value(&self, i: usize) -> (r: &String)
        requires
            i < self@.len(),
        ensures
            r@ == self@[i as int].1,
    {
        &self.entries[i].1
    }

    /// Gives `key` the value `value` unless it has one: says whether it did.
    pub fn set(&mut self, key: String, value: String) -> (added: bool)
        ensures
            added == !has_key(old(self)@, key@),
            final(self)@ == with_attr(old(self)@, key@, value@),
    {
        if self.contains_key(key.as_str()) {
            false
        } else {
            let ghost before = self@;
            self.entries.push((key, value));
            assert(self@ =~= before.push((key@, value@)));
            true
        }
    }

    /// A list that holds what this one holds.
    pub fn copy(&self) -> (r: AttrMap)
        ensures
            r@ == self@,
    {
        let mut entries: Vec<(String, String)> = Vec::new();
        let mut i: usize = 0;
        while i < self.entries.len()
            invariant
                i <= self.entries.len(),
                entries.len() == i,
                forall|j: int|
                    0 <= j < i ==> (#[trigger] entries[j]).0@ == self.entries[j].0@ && entries[j].1@
                        == self.entries[j].1@,
            decreases self.entries.len() - i,
        {
            entries.push((self.entries[i].0.clone(), self.entries[i].1.clone()));
            i += 1;
        }
        let r = AttrMap { entries };
        assert(r@ =~= self@);
        r
    }
}

} // verus!
