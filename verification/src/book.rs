//! An ordered list of values under text keys. A new key goes to the end; a key
//! that is already there keeps its place.

use vstd::prelude::*;
use vstd::string::*;

use crate::text;

verus! {

pub struct Book<T> {
    entries: Vec<(String, T)>,
}

/// Where `key` first occurs, or the length of the list.
pub open spec fn position<T>(s: Seq<(Seq<char>, T)>, key: Seq<char>) -> nat
    decreases s.len(),
{
    if s.len() == 0 || s[0].0 == key {
        0
    } else {
        1 + position(s.drop_first(), key)
    }
}

pub open spec fn has_key<T>(s: Seq<(Seq<char>, T)>, key: Seq<char>) -> bool {
    position(s, key) < s.len()
}

/// The value under `key`.
pub open spec fn lookup<T>(s: Seq<(Seq<char>, T)>, key: Seq<char>) -> Option<T> {
    if has_key(s, key) {
        Some(s[position(s, key) as int].1)
    } else {
        None
    }
}

/// The list with `value` under `key`.
pub open spec fn inserted<T>(s: Seq<(Seq<char>, T)>, key: Seq<char>, value: T) -> Seq<
    (Seq<char>, T),
> {
    if has_key(s, key) {
        s.update(position(s, key) as int, (key, value))
    } else {
        s.push((key, value))
    }
}

/// The list without `key`.
pub open spec fn removed<T>(s: Seq<(Seq<char>, T)>, key: Seq<char>) -> Seq<(Seq<char>, T)> {
    if has_key(s, key) {
        s.remove(position(s, key) as int)
    } else {
        s
    }
}

/// No key occurs twice.
pub open spec fn distinct<T>(s: Seq<(Seq<char>, T)>) -> bool {
    forall|i: int, j: int| 0 <= i < j < s.len() ==> (#[trigger] s[i]).0 != (#[trigger] s[j]).0
}

/// The position of a key is characterised by what lies before it.
pub proof fn lemma_position<T>(s: Seq<(Seq<char>, T)>, key: Seq<char>, i: int)
    requires
        0 <= i <= s.len(),
        forall|j: int| 0 <= j < i ==> (#[trigger] s[j]).0 != key,
        i < s.len() ==> s[i].0 == key,
    ensures
        position(s, key) == i,
    decreases s.len(),
{
    if i > 0 {
        let tail = s.drop_first();
        assert(s[0].0 != key);
        assert forall|j: int| 0 <= j < i - 1 implies (#[trigger] tail[j]).0 != key by {
            assert(tail[j] == s[j + 1]);
        }
        lemma_position(tail, key, i - 1);
    }
}

/// What the position of a key says.
pub proof fn lemma_position_means<T>(s: Seq<(Seq<char>, T)>, key: Seq<char>)
    ensures
        position(s, key) <= s.len(),
        forall|j: int| 0 <= j < position(s, key) ==> (#[trigger] s[j]).0 != key,
        has_key(s, key) ==> s[position(s, key) as int].0 == key,
    decreases s.len(),
{
    if s.len() > 0 && s[0].0 != key {
        let tail = s.drop_first();
        lemma_position_means(tail, key);
        assert forall|j: int| 0 <= j < position(s, key) implies (#[trigger] s[j]).0 != key by {
            if j > 0 {
                assert(tail[j - 1] == s[j]);
            }
        }
    }
}

/// What is read under a key stands in the list under that key, and where nothing
/// is read, nothing stands there.
pub proof fn lookup_finds_what_is_there<T>(s: Seq<(Seq<char>, T)>, key: Seq<char>)
    ensures
        lookup(s, key) is Some == has_key(s, key),
        has_key(s, key) <==> exists|i: int| 0 <= i < s.len() && (#[trigger] s[i]).0 == key,
        lookup(s, key) matches Some(v) ==> exists|i: int|
            0 <= i < s.len() && #[trigger] s[i] == (key, v) && forall|j: int|
                0 <= j < i ==> (#[trigger] s[j]).0 != key,
{
    lemma_position_means(s, key);
    if has_key(s, key) {
        let p = position(s, key) as int;
        assert(s[p] == (key, s[p].1));
    }
}

/// A new key goes to the end, a key that is there keeps its place, and every
/// other entry stays as it is and where it is.
pub proof fn inserting_keeps_places<T>(s: Seq<(Seq<char>, T)>, key: Seq<char>, value: T, i: int)
    requires
        0 <= i < s.len(),
    ensures
        inserted(s, key, value).len() == s.len() + (if has_key(s, key) {
            0int
        } else {
            1
        }),
        inserted(s, key, value)[i].0 == s[i].0,
        s[i].0 != key ==> inserted(s, key, value)[i] == s[i],
{
    lemma_position_means(s, key);
}

/// A read gives back what the last write put there; other keys are untouched.
pub proof fn insert_then_lookup<T>(
    s: Seq<(Seq<char>, T)>,
    key: Seq<char>,
    value: T,
    other: Seq<char>,
)
    ensures
        lookup(inserted(s, key, value), key) == Some(value),
        other != key ==> lookup(inserted(s, key, value), other) == lookup(s, other),
        distinct(s) ==> distinct(inserted(s, key, value)),
{
    lemma_position_means(s, key);
    lemma_position_means(s, other);
    let t = inserted(s, key, value);
    lemma_position(t, key, position(s, key) as int);
    if other != key {
        let p = position(s, other) as int;
        if p < s.len() {
            lemma_position(t, other, p);
        } else {
            lemma_position(t, other, t.len() as int);
        }
    }
}

/// After a removal the key is gone and other keys are untouched.
pub proof fn remove_then_lookup<T>(s: Seq<(Seq<char>, T)>, key: Seq<char>, other: Seq<char>)
    requires
        distinct(s),
    ensures
        lookup(removed(s, key), key) is None,
        other != key ==> lookup(removed(s, key), other) == lookup(s, other),
        distinct(removed(s, key)),
{
    lemma_position_means(s, key);
    lemma_position_means(s, other);
    let t = removed(s, key);
    let p = position(s, key) as int;
    if has_key(s, key) {
        assert forall|j: int| 0 <= j < t.len() implies (#[trigger] t[j]).0 != key by {
            if j < p {
                assert(t[j] == s[j]);
            } else {
                assert(t[j] == s[j + 1]);
                assert(s[p].0 != s[j + 1].0);
            }
        }
        lemma_position(t, key, t.len() as int);
        if other != key {
            let q = position(s, other) as int;
            if q < p {
                lemma_position(t, other, q);
            } else if q < s.len() {
                assert forall|j: int| 0 <= j < q - 1 implies (#[trigger] t[j]).0 != other by {
                    if j < p {
                        assert(t[j] == s[j]);
                    } else {
                        assert(t[j] == s[j + 1]);
                    }
                }
                assert(t[q - 1] == s[q]);
                lemma_position(t, other, q - 1);
            } else {
                assert forall|j: int| 0 <= j < t.len() implies (#[trigger] t[j]).0 != other by {
                    if j < p {
                        assert(t[j] == s[j]);
                    } else {
                        assert(t[j] == s[j + 1]);
                    }
                }
                lemma_position(t, other, t.len() as int);
            }
        }
        assert forall|i: int, j: int| 0 <= i < j < t.len() implies (#[trigger] t[i]).0 != (
        #[trigger] t[j]).0 by {
            let a = if i < p {
                i
            } else {
                i + 1
            };
            let b = if j < p {
                j
            } else {
                j + 1
            };
            assert(t[i] == s[a] && t[j] == s[b]);
        }
    }
}

impl<T: View> View for Book<T> {
    type V = Seq<(Seq<char>, T::V)>;

    closed spec fn view(&self) -> Seq<(Seq<char>, T::V)> {
        self.entries@.map_values(|e: (String, T)| (e.0@, e.1@))
    }
}

/// What an optional value stands for.
pub open spec fn value_option<T: View>(t: Option<T>) -> Option<T::V> {
    match t {
        Some(v) => Some(v@),
        None => None,
    }
}

impl<T: View> Book<T> {
    pub fn new() -> (r: Self)
        ensures
            r@ == Seq::<(Seq<char>, T::V)>::empty(),
            distinct(r@),
    {
        let r = Book { entries: Vec::new() };
        proof {
            assert(r@ =~= Seq::<(Seq<char>, T::V)>::empty());
        }
        r
    }

    pub fn len(&self) -> (r: usize)
        ensures
            r == self@.len(),
    {
        self.entries.len()
    }

    /// The key at a place.
    pub fn key_at(&self, i: usize) -> (r: &str)
        requires
            i < self@.len(),
        ensures
            r@ == self@[i as int].0,
    {
        self.entries[i].0.as_str()
    }

    /// The value at a place.
    pub fn value_at(&self, i: usize) -> (r: &T)
        requires
            i < self@.len(),
        ensures
            r@ == self@[i as int].1,
    {
        &self.entries[i].1
    }

    fn find(&self, key: &str) -> (r: usize)
        ensures
            r == position(self@, key@),
            r <= self@.len(),
    {
        let mut i: usize = 0;
        while i < self.entries.len()
            invariant
                i <= self@.len(),
                self@.len() == self.entries@.len(),
                forall|j: int| 0 <= j < i ==> (#[trigger] self@[j]).0 != key@,
            decreases self.entries@.len() - i,
        {
            if text::same_text(self.entries[i].0.as_str(), key) {
                proof {
                    lemma_position(self@, key@, i as int);
                }
                return i;
            }
            i = i + 1;
        }
        proof {
            lemma_position(self@, key@, i as int);
        }
        i
    }

    pub fn contains_key(&self, key: &str) -> (r: bool)
        ensures
            r == has_key(self@, key@),
    {
        self.find(key) < self.entries.len()
    }

    /// The value under `key`.
    pub fn get(&self, key: &str) -> (r: Option<&T>)
        ensures
            match r {
                Some(v) => lookup(self@, key@) == Some(v@),
                None => lookup(self@, key@) is None,
            },
    {
        let i: usize = self.find(key);
        if i < self.entries.len() {
            Some(&self.entries[i].1)
        } else {
            None
        }
    }

    /// Puts `value` under `key` and hands back the value that was there.
    pub fn insert(&mut self, key: String, value: T) -> (r: Option<T>)
        ensures
            final(self)@ == inserted(old(self)@, key@, value@),
            value_option(r) == lookup(old(self)@, key@),
            distinct(old(self)@) ==> distinct(final(self)@),
    {
        proof {
            insert_then_lookup(self@, key@, value@, key@);
        }
        let i: usize = self.find(key.as_str());
        let ghost k = key@;
        let ghost v = value@;
        if i < self.entries.len() {
            let (_, previous) = self.entries.remove(i);
            self.entries.insert(i, (key, value));
            proof {
                assert(self@ =~= inserted(old(self)@, k, v));
            }
            Some(previous)
        } else {
            self.entries.push((key, value));
            proof {
                assert(self@ =~= inserted(old(self)@, k, v));
            }
            None
        }
    }

    /// Takes out the value under `key`.
    pub fn remove(&mut self, key: &str) -> (r: Option<T>)
        ensures
            final(self)@ == removed(old(self)@, key@),
            value_option(r) == lookup(old(self)@, key@),
            distinct(old(self)@) ==> distinct(final(self)@),
    {
        proof {
            if distinct(self@) {
                remove_then_lookup(self@, key@, key@);
            }
        }
        let i: usize = self.find(key);
        if i < self.entries.len() {
            let (_, value) = self.entries.remove(i);
            proof {
                assert(self@ =~= removed(old(self)@, key@));
            }
            Some(value)
        } else {
            None
        }
    }

    /// Takes out the entry at a place.
    pub fn remove_at(&mut self, i: usize) -> (r: (String, T))
        requires
            i < old(self)@.len(),
        ensures
            final(self)@ == old(self)@.remove(i as int),
            (r.0@, r.1@) == old(self)@[i as int],
    {
        let r = self.entries.remove(i);
        proof {
            assert(self@ =~= old(self)@.remove(i as int));
        }
        r
    }

    /// Puts a new value at a place and hands back the old one.
    pub fn replace_at(&mut self, i: usize, value: T) -> (r: T)
        requires
            i < old(self)@.len(),
        ensures
            final(self)@ == old(self)@.update(i as int, (old(self)@[i as int].0, value@)),
            r@ == old(self)@[i as int].1,
    {
        let ghost v = value@;
        let (key, previous) = self.entries.remove(i);
        self.entries.insert(i, (key, value));
        proof {
            assert(self@ =~= old(self)@.update(i as int, (old(self)@[i as int].0, v)));
        }
        previous
    }
}

} // verus!
