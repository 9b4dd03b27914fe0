//! A small map from strings to values.
use crate::text;
use vstd::prelude::*;

verus! {

/// Which keys of a store are meant.
pub enum KeyPattern<'a> {
    /// The key itself.
    Exactly(&'a str),
    /// Every key that begins like this.
    StartsWith(&'a str),
}

impl<'a> KeyPattern<'a> {
    /// Whether a key is meant.
    pub open spec fn covers(self, key: Seq<char>) -> bool {
        match self {
            KeyPattern::Exactly(k) => key == k@,
            KeyPattern::StartsWith(p) => p@.is_prefix_of(key),
        }
    }

    /// Decides whether a key is meant.
    pub fn matches(&self, key: &str) -> (b: bool)
        ensures
            b == self.covers(key@),
    {
        match self {
            KeyPattern::Exactly(k) => text::str_eq(key, k),
            KeyPattern::StartsWith(p) => text::starts_with(key, p),
        }
    }
}

/// A map from strings to values. Each key is held once.
pub struct Store<V> {
    entries: Vec<(String, V)>,
}

/// The map that entries stand for.
pub open spec fn map_of<V>(entries: Seq<(String, V)>) -> Map<Seq<char>, V>
    decreases entries.len(),
{
    if entries.len() == 0 {
        Map::empty()
    } else {
        map_of(entries.drop_last()).insert(entries.last().0@, entries.last().1)
    }
}

/// Whether each key is held once.
pub open spec fn keys_once<V>(entries: Seq<(String, V)>) -> bool {
    forall|i: int, j: int|
        0 <= i < j < entries.len() ==> (#[trigger] entries[i]).0@ != (#[trigger] entries[j]).0@
}

impl<V> View for Store<V> {
    type V = Map<Seq<char>, V>;

    closed spec fn view(&self) -> Map<Seq<char>, V> {
        map_of(self.entries@)
    }
}

proof fn lemma_map_of<V>(entries: Seq<(String, V)>)
    requires
        keys_once(entries),
    ensures
        forall|i: int|
            0 <= i < entries.len() ==> map_of(entries).contains_key((#[trigger] entries[i]).0@)
                && map_of(entries)[entries[i].0@] == entries[i].1,
        forall|k: Seq<char>| #[trigger]
            map_of(entries).contains_key(k) ==> exists|i: int|
                0 <= i < entries.len() && (#[trigger] entries[i]).0@ == k,
    decreases entries.len(),
{
    if entries.len() > 0 {
        let shorter = entries.drop_last();
        lemma_map_of(shorter);
        assert forall|i: int| 0 <= i < entries.len() implies map_of(entries).contains_key(
            (#[trigger] entries[i]).0@,
        ) && map_of(entries)[entries[i].0@] == entries[i].1 by {
            if i < shorter.len() {
                assert(shorter[i] == entries[i]);
                assert(entries[i].0@ != entries[entries.len() - 1].0@);
            }
        }
        assert forall|k: Seq<char>| #[trigger] map_of(entries).contains_key(k) implies exists|
            i: int,
        |
            0 <= i < entries.len() && (#[trigger] entries[i]).0@ == k by {
            if k == entries.last().0@ {
                assert(entries[entries.len() - 1].0@ == k);
            } else {
                assert(map_of(shorter).contains_key(k));
                let i = choose|i: int| 0 <= i < shorter.len() && (#[trigger] shorter[i]).0@ == k;
                assert(entries[i] == shorter[i]);
            }
        }
    }
}

proof fn lemma_map_without<V>(entries: Seq<(String, V)>, i: int)
    requires
        keys_once(entries),
        0 <= i < entries.len(),
    ensures
        keys_once(entries.remove(i)),
        map_of(entries.remove(i)) == map_of(entries).remove(entries[i].0@),
{
    let rest = entries.remove(i);
    assert forall|a: int, b: int| 0 <= a < b < rest.len() implies (#[trigger] rest[a]).0@ != (
    #[trigger] rest[b]).0@ by {
        let a2 = if a < i { a } else { a + 1 };
        let b2 = if b < i { b } else { b + 1 };
        assert(rest[a] == entries[a2]);
        assert(rest[b] == entries[b2]);
    }
    lemma_map_of(entries);
    lemma_map_of(rest);
    let key = entries[i].0@;
    let left = map_of(entries).remove(key);
    assert forall|k: Seq<char>| map_of(rest).contains_key(k) <==> #[trigger] left.contains_key(
        k,
    ) by {
        if map_of(rest).contains_key(k) {
            let a = choose|a: int| 0 <= a < rest.len() && (#[trigger] rest[a]).0@ == k;
            let a2 = if a < i { a } else { a + 1 };
            assert(rest[a] == entries[a2]);
        }
        if left.contains_key(k) {
            let a = choose|a: int| 0 <= a < entries.len() && (#[trigger] entries[a]).0@ == k;
            let a2 = if a < i { a } else { a - 1 };
            assert(rest[a2] == entries[a]);
        }
    }
    assert forall|k: Seq<char>| #[trigger] left.contains_key(k) implies map_of(rest)[k]
        == left[k] by {
        let a = choose|a: int| 0 <= a < entries.len() && (#[trigger] entries[a]).0@ == k;
        let a2 = if a < i { a } else { a - 1 };
        assert(rest[a2] == entries[a]);
    }
    assert(map_of(rest) =~= left);
}

impl<V> Store<V> {
    /// Whether each key is held once.
    pub closed spec fn wf(self) -> bool {
        keys_once(self.entries@)
    }

    /// A store without entries.
    pub fn new() -> (store: Self)
        ensures
            store.wf(),
            store@ == Map::<Seq<char>, V>::empty(),
    {
        Store { entries: Vec::new() }
    }

    /// The value under a key.
    pub fn get(&self, key: &str) -> (value: Option<&V>)
        requires
            self.wf(),
        ensures
            match value {
                Some(v) => self@.contains_key(key@) && *v == self@[key@],
                None => !self@.contains_key(key@),
            },
    {
        proof {
            lemma_map_of(self.entries@);
        }
        let mut i: usize = 0;
        while i < self.entries.len()
            invariant
                i <= self.entries@.len(),
                forall|j: int| 0 <= j < i ==> (#[trigger] self.entries@[j]).0@ != key@,
                forall|j: int|
                    0 <= j < self.entries@.len() ==> map_of(self.entries@).contains_key(
                        (#[trigger] self.entries@[j]).0@,
                    ) && map_of(self.entries@)[self.entries@[j].0@] == self.entries@[j].1,
                forall|k: Seq<char>| #[trigger]
                    map_of(self.entries@).contains_key(k) ==> exists|i: int|
                        0 <= i < self.entries@.len() && (#[trigger] self.entries@[i]).0@ == k,
            decreases self.entries@.len() - i,
        {
            if text::str_eq(self.entries[i].0.as_str(), key) {
                return Some(&self.entries[i].1);
            }
            i += 1;
        }
        None
    }

    /// Takes out every entry whose key is meant.
    pub fn remove_matching(&mut self, pattern: &KeyPattern)
        requires
            old(self).wf(),
        ensures
            final(self).wf(),
            forall|k: Seq<char>| #[trigger]
                final(self)@.contains_key(k) <==> old(self)@.contains_key(k) && !pattern.covers(k),
            forall|k: Seq<char>| #[trigger]
                final(self)@.contains_key(k) ==> final(self)@[k] == old(self)@[k],
    {
        let mut i: usize = 0;
        while i < self.entries.len()
            invariant
                i <= self.entries@.len(),
                keys_once(self.entries@),
                forall|j: int|
                    0 <= j < i ==> !pattern.covers((#[trigger] self.entries@[j]).0@),
                forall|k: Seq<char>| #[trigger]
                    map_of(self.entries@).contains_key(k) ==> old(self)@.contains_key(k),
                forall|k: Seq<char>|
                    old(self)@.contains_key(k) && !pattern.covers(k) ==> #[trigger] map_of(
                        self.entries@,
                    ).contains_key(k),
                forall|k: Seq<char>| #[trigger]
                    map_of(self.entries@).contains_key(k) ==> map_of(self.entries@)[k]
                        == old(self)@[k],
            decreases self.entries@.len() - i,
        {
            let ghost entries = self.entries@;
            if pattern.matches(self.entries[i].0.as_str()) {
                proof {
                    lemma_map_without(entries, i as int);
                }
                let _removed = self.entries.remove(i);
                assert(forall|j: int| 0 <= j < i ==> self.entries@[j] == entries[j]);
            } else {
                i += 1;
            }
        }
        proof {
            lemma_map_of(self.entries@);
            assert forall|k: Seq<char>| #[trigger] map_of(self.entries@).contains_key(
                k,
            ) implies !pattern.covers(k) by {
                let j = choose|j: int|
                    0 <= j < self.entries@.len() && (#[trigger] self.entries@[j]).0@ == k;
                assert(!pattern.covers(self.entries@[j].0@));
            }
        }
    }

    /// Puts a value under a key, in place of the one that was there.
    pub fn insert(&mut self, key: &str, value: V)
        requires
            old(self).wf(),
        ensures
            final(self).wf(),
            final(self)@ == old(self)@.insert(key@, value),
    {
        let ghost before = self@;
        self.remove_matching(&KeyPattern::Exactly(key));
        let ghost middle = self@;
        let ghost entries = self.entries@;
        let name = text::copy_str(key);
        proof {
            lemma_map_of(entries);
        }
        self.entries.push((name, value));
        assert(self.entries@.drop_last() =~= entries);
        proof {
            let all = self.entries@;
            assert forall|i: int, j: int| 0 <= i < j < all.len() implies (#[trigger] all[i]).0@
                != (#[trigger] all[j]).0@ by {
                if j == entries.len() {
                    assert(all[i] == entries[i]);
                    assert(middle.contains_key(entries[i].0@));
                }
            }
            assert(middle.insert(key@, value) =~= before.insert(key@, value));
        }
    }
}

/// A pattern means one key, or every key that begins like it.
pub proof fn law_which_keys_are_meant(text: &str, key: Seq<char>, rest: Seq<char>)
    ensures
        KeyPattern::Exactly(text).covers(key) <==> key == text@,
        KeyPattern::StartsWith(text).covers(text@ + rest),
        KeyPattern::StartsWith(text).covers(key) ==> key.len() >= text@.len() && key == text@
            + key.skip(text@.len() as int),
{
    let n = text@.len() as int;
    assert((text@ + rest).subrange(0, n) =~= text@);
    if text@.is_prefix_of(key) {
        assert(key =~= key.subrange(0, n) + key.skip(n));
    }
}

} // verus!
