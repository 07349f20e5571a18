//! A small map from texture keys, kept as a list of entries.

use vstd::prelude::*;

use crate::model::PhotoId;

verus! {

/// Which rendition of a photo a texture serves.
#[derive(Copy, Clone, Debug, PartialEq, Eq, Structural, PartialOrd, Ord, Hash)]
pub enum SizeClass {
    /// Contact-sheet thumbnail.
    Thumb,
    /// Loupe-sized preview.
    Screen,
}

/// One photo at one size class.
#[derive(Copy, Clone, Debug, PartialEq, Eq, Structural, PartialOrd, Ord, Hash)]
pub struct TexKey {
    /// The photo.
    pub id: PhotoId,
    /// The rendition.
    pub class: SizeClass,
}

/// Rank of a size class.
pub open spec fn class_rank(class: SizeClass) -> int {
    match class {
        SizeClass::Thumb => 0,
        SizeClass::Screen => 1,
    }
}

/// Order of keys: by photo, thumbnails before previews.
pub open spec fn key_le(a: TexKey, b: TexKey) -> bool {
    a.id.0 < b.id.0 || (a.id.0 == b.id.0 && class_rank(a.class) <= class_rank(b.class))
}

/// Text that names a rendition.
pub open spec fn prefix_of(class: SizeClass) -> Seq<char> {
    match class {
        SizeClass::Thumb => "thumb"@,
        SizeClass::Screen => "screen"@,
    }
}

impl TexKey {
    /// Key of a contact-sheet thumbnail.
    pub fn thumb(id: PhotoId) -> (key: Self)
        ensures
            key == (TexKey { id, class: SizeClass::Thumb }),
    {
        TexKey { id, class: SizeClass::Thumb }
    }

    /// Key of a loupe preview.
    pub fn screen(id: PhotoId) -> (key: Self)
        ensures
            key == (TexKey { id, class: SizeClass::Screen }),
    {
        TexKey { id, class: SizeClass::Screen }
    }

    /// Prefix of the texture's name, so that both renditions of a photo can
    /// live side by side.
    pub fn class_prefix(self) -> (prefix: &'static str)
        ensures
            prefix@ == prefix_of(self.class),
    {
        match self.class {
            SizeClass::Thumb => "thumb",
            SizeClass::Screen => "screen",
        }
    }

    /// Whether this key stands at or before another.
    pub fn at_or_before(&self, other: &TexKey) -> (r: bool)
        ensures
            r == key_le(*self, *other),
    {
        if self.id.0 != other.id.0 {
            self.id.0 < other.id.0
        } else {
            match (self.class, other.class) {
                (SizeClass::Screen, SizeClass::Thumb) => false,
                _ => true,
            }
        }
    }
}

/// A map from texture keys.
pub struct KeyMap<V> {
    /// The entries, in no particular order.
    pub entries: Vec<(TexKey, V)>,
}

/// The map that a list of entries stands for.
pub open spec fn map_of<V>(entries: Seq<(TexKey, V)>) -> Map<TexKey, V>
    decreases entries.len(),
{
    if entries.len() == 0 {
        Map::empty()
    } else {
        map_of(entries.drop_last()).insert(entries.last().0, entries.last().1)
    }
}

/// No key is entered twice.
pub open spec fn keys_distinct<V>(entries: Seq<(TexKey, V)>) -> bool {
    forall|i: int, j: int| 0 <= i < j < entries.len() ==> (#[trigger] entries[i]).0 != (#[trigger] entries[j]).0
}

impl<V> View for KeyMap<V> {
    type V = Map<TexKey, V>;

    open spec fn view(&self) -> Map<TexKey, V> {
        map_of(self.entries@)
    }
}

/// What the map holds, seen from the entries.
pub proof fn lemma_map_of<V>(entries: Seq<(TexKey, V)>)
    requires
        keys_distinct(entries),
    ensures
        forall|i: int|
            0 <= i < entries.len() ==> map_of(entries).contains_key((#[trigger] entries[i]).0) && map_of(
                entries,
            )[entries[i].0] == entries[i].1,
        forall|k: TexKey| #[trigger]
            map_of(entries).contains_key(k) ==> exists|i: int| 0 <= i < entries.len() && (#[trigger] entries[i]).0 == k,
        map_of(entries).dom().finite(),
        map_of(entries).dom().len() == entries.len(),
    decreases entries.len(),
{
    if entries.len() > 0 {
        let head = entries.drop_last();
        assert(keys_distinct(head)) by {
            assert forall|i: int, j: int| 0 <= i < j < head.len() implies (#[trigger] head[i]).0 != (
            #[trigger] head[j]).0 by {
                assert(entries[i].0 != entries[j].0);
            }
        }
        lemma_map_of(head);
        let n = entries.len() - 1;
        assert(!map_of(head).contains_key(entries.last().0)) by {
            if map_of(head).contains_key(entries.last().0) {
                let i = choose|i: int| 0 <= i < head.len() && (#[trigger] head[i]).0 == entries.last().0;
                assert(entries[i].0 != entries[n].0);
            }
        }
        assert forall|i: int| 0 <= i < entries.len() implies map_of(entries).contains_key((#[trigger] entries[i]).0)
            && map_of(entries)[entries[i].0] == entries[i].1 by {
            if i < n {
                assert(head[i] == entries[i]);
                assert(entries[i].0 != entries[n].0);
            }
        }
        assert forall|k: TexKey| #[trigger] map_of(entries).contains_key(k) implies exists|i: int|
            0 <= i < entries.len() && (#[trigger] entries[i]).0 == k by {
            if k == entries.last().0 {
                assert(entries[n].0 == k);
            } else {
                assert(map_of(head).contains_key(k));
                let i = choose|i: int| 0 <= i < head.len() && (#[trigger] head[i]).0 == k;
                assert(entries[i].0 == k);
            }
        }
    }
}

/// A list of entries stands for `m` if it enters exactly the keys of `m`,
/// each once and with its value.
proof fn lemma_stands_for<V>(entries: Seq<(TexKey, V)>, m: Map<TexKey, V>)
    requires
        keys_distinct(entries),
        forall|i: int|
            0 <= i < entries.len() ==> m.contains_key((#[trigger] entries[i]).0) && m[entries[i].0] == entries[i].1,
        forall|k: TexKey| #[trigger]
            m.contains_key(k) ==> exists|i: int| 0 <= i < entries.len() && (#[trigger] entries[i]).0 == k,
    ensures
        map_of(entries) == m,
{
    lemma_map_of(entries);
    assert(map_of(entries) =~= m) by {
        assert forall|k: TexKey| map_of(entries).contains_key(k) <==> m.contains_key(k) by {
            if map_of(entries).contains_key(k) {
                let i = choose|i: int| 0 <= i < entries.len() && (#[trigger] entries[i]).0 == k;
            }
            if m.contains_key(k) {
                let i = choose|i: int| 0 <= i < entries.len() && (#[trigger] entries[i]).0 == k;
            }
        }
        assert forall|k: TexKey| map_of(entries).contains_key(k) implies map_of(entries)[k] == m[k] by {
            let i = choose|i: int| 0 <= i < entries.len() && (#[trigger] entries[i]).0 == k;
        }
    }
}

impl<V> KeyMap<V> {
    /// No key is entered twice.
    pub open spec fn wf(self) -> bool {
        keys_distinct(self.entries@)
    }

    /// An empty map.
    pub fn new() -> (map: Self)
        ensures
            map.wf(),
            map@ == Map::<TexKey, V>::empty(),
            map.entries@.len() == 0,
    {
        KeyMap { entries: Vec::new() }
    }

    /// Number of keys.
    pub fn len(&self) -> (n: usize)
        requires
            self.wf(),
        ensures
            n == self@.dom().len(),
            n == self.entries.len(),
    {
        proof {
            lemma_map_of(self.entries@);
        }
        self.entries.len()
    }

    /// Position of the entry of a key.
    pub fn find(&self, key: TexKey) -> (found: Option<usize>)
        requires
            self.wf(),
        ensures
            match found {
                Some(i) => {
                    &&& i < self.entries.len()
                    &&& self.entries@[i as int].0 == key
                    &&& self@.contains_key(key)
                    &&& self@[key] == self.entries@[i as int].1
                },
                None => {
                    &&& !self@.contains_key(key)
                    &&& forall|k: int| 0 <= k < self.entries.len() ==> (#[trigger] self.entries@[k]).0 != key
                },
            },
    {
        proof {
            lemma_map_of(self.entries@);
        }
        let mut i: usize = 0;
        while i < self.entries.len()
            invariant
                i <= self.entries.len(),
                self.wf(),
                forall|k: int| 0 <= k < i ==> (#[trigger] self.entries@[k]).0 != key,
            decreases self.entries.len() - i,
        {
            if self.entries[i].0 == key {
                proof {
                    lemma_map_of(self.entries@);
                }
                return Some(i);
            }
            i = i + 1;
        }
        None
    }

    /// Enters a value, replacing an earlier one.
    pub fn insert(&mut self, key: TexKey, value: V)
        requires
            old(self).wf(),
        ensures
            final(self).wf(),
            final(self)@ == old(self)@.insert(key, value),
            !old(self)@.contains_key(key) ==> final(self).entries@ == old(self).entries@.push((key, value)),
            forall|i: int|
                0 <= i < old(self).entries.len() && (#[trigger] old(self).entries@[i]).0 == key ==> final(self).entries@ == old(self).entries@.update(i, (key, value)),
    {
        let ghost before = self.entries@;
        let ghost m = self@.insert(key, value);
        match self.find(key) {
            Some(i) => {
                self.entries.set(i, (key, value));
                proof {
                    lemma_map_of(before);
                    assert forall|a: int, b: int| 0 <= a < b < self.entries@.len() implies (
                    #[trigger] self.entries@[a]).0 != (#[trigger] self.entries@[b]).0 by {
                        assert(before[a].0 != before[b].0);
                    }
                    assert forall|a: int| 0 <= a < self.entries@.len() implies m.contains_key(
                        (#[trigger] self.entries@[a]).0,
                    ) && m[self.entries@[a].0] == self.entries@[a].1 by {
                        if a < i {
                            assert(before[a].0 != before[i as int].0);
                        } else if i < a {
                            assert(before[i as int].0 != before[a].0);
                        }
                        assert(map_of(before).contains_key(before[a].0));
                    }
                    assert forall|k: TexKey| #[trigger] m.contains_key(k) implies exists|a: int|
                        0 <= a < self.entries@.len() && (#[trigger] self.entries@[a]).0 == k by {
                        if k == key {
                            assert(self.entries@[i as int].0 == k);
                        } else {
                            assert(map_of(before).contains_key(k));
                            let a = choose|a: int| 0 <= a < before.len() && (#[trigger] before[a]).0 == k;
                            assert(self.entries@[a].0 == k);
                        }
                    }
                    lemma_stands_for(self.entries@, m);
                    assert forall|a: int| 0 <= a < before.len() && (#[trigger] before[a]).0 == key implies a == i by {
                        if a < i {
                            assert(before[a].0 != before[i as int].0);
                        } else if i < a {
                            assert(before[i as int].0 != before[a].0);
                        }
                    }
                }
            },
            None => {
                self.entries.push((key, value));
                proof {
                    assert(self.entries@.drop_last() =~= before);
                }
            },
        }
    }

    /// Removes a key; returns its value.
    pub fn remove(&mut self, key: TexKey) -> (value: Option<V>)
        requires
            old(self).wf(),
        ensures
            final(self).wf(),
            final(self)@ == old(self)@.remove(key),
            match value {
                Some(v) => {
                    &&& old(self)@.contains_key(key)
                    &&& old(self)@[key] == v
                    &&& exists|i: int|
                        {
                            &&& 0 <= i < old(self).entries.len()
                            &&& #[trigger] old(self).entries@[i] == (key, v)
                            &&& final(self).entries@ == old(self).entries@.remove(i)
                        }
                },
                None => !old(self)@.contains_key(key) && *final(self) == *old(self),
            },
    {
        let ghost before = self.entries@;
        match self.find(key) {
            Some(i) => {
                let (_, v) = self.entries.remove(i);
                proof {
                    lemma_map_of(before);
                    let m = map_of(before).remove(key);
                    let after = self.entries@;
                    assert forall|a: int, b: int| 0 <= a < b < after.len() implies (#[trigger] after[a]).0 != (
                    #[trigger] after[b]).0 by {
                        let x = if a < i {
                            a
                        } else {
                            a + 1
                        };
                        let y = if b < i {
                            b
                        } else {
                            b + 1
                        };
                        assert(before[x].0 != before[y].0);
                    }
                    assert forall|a: int| 0 <= a < after.len() implies m.contains_key((#[trigger] after[a]).0)
                        && m[after[a].0] == after[a].1 by {
                        let x = if a < i {
                            a
                        } else {
                            a + 1
                        };
                        assert(after[a] == before[x]);
                        if x < i {
                            assert(before[x].0 != before[i as int].0);
                        } else {
                            assert(before[i as int].0 != before[x].0);
                        }
                    }
                    assert forall|k: TexKey| #[trigger] m.contains_key(k) implies exists|a: int|
                        0 <= a < after.len() && (#[trigger] after[a]).0 == k by {
                        assert(map_of(before).contains_key(k));
                        let x = choose|x: int| 0 <= x < before.len() && (#[trigger] before[x]).0 == k;
                        let a = if x < i {
                            x
                        } else {
                            x - 1
                        };
                        assert(after[a] == before[x]);
                    }
                    lemma_stands_for(after, m);
                    assert(before[i as int] == (key, v));
                }
                Some(v)
            },
            None => {
                proof {
                    assert(self@.remove(key) =~= self@);
                }
                None
            },
        }
    }

    /// Keeps the entries that `keep` accepts; `rule` says which those are.
    pub fn retain_where<F: Fn(&TexKey, &V) -> bool>(&mut self, keep: F, Ghost(rule): Ghost<spec_fn(TexKey, V) -> bool>)
        requires
            old(self).wf(),
            forall|k: TexKey, v: V| #[trigger] keep.requires((&k, &v)),
            forall|k: TexKey, v: V, r: bool| #[trigger] keep.ensures((&k, &v), r) ==> r == rule(k, v),
        ensures
            final(self).wf(),
            final(self)@ == accepted(old(self)@, rule),
    {
        let ghost m = self@;
        let mut i: usize = 0;
        proof {
            lemma_map_of(self.entries@);
        }
        while i < self.entries.len()
            invariant
                i <= self.entries.len(),
                self.wf(),
                forall|k: TexKey, v: V| #[trigger] keep.requires((&k, &v)),
                forall|k: TexKey, v: V, r: bool| #[trigger] keep.ensures((&k, &v), r) ==> r == rule(k, v),
                forall|j: int| 0 <= j < i ==> rule((#[trigger] self.entries@[j]).0, self.entries@[j].1),
                forall|k: TexKey| #[trigger] self@.contains_key(k) ==> m.contains_key(k) && m[k] == self@[k],
                forall|k: TexKey| #[trigger] m.contains_key(k) && rule(k, m[k]) ==> self@.contains_key(k),
            decreases self.entries.len() - i,
        {
            proof {
                lemma_map_of(self.entries@);
            }
            let entry = &self.entries[i];
            if keep(&entry.0, &entry.1) {
                i = i + 1;
            } else {
                let key: TexKey = self.entries[i].0;
                let ghost before = self.entries@;
                self.remove(key);
                proof {
                    assert(before[i as int].0 == key);
                    let at = choose|a: int|
                        0 <= a < before.len() && (#[trigger] before[a]).0 == key && self.entries@ == before.remove(a);
                    if at < i {
                        assert(before[at].0 != before[i as int].0);
                    } else if i < at {
                        assert(before[i as int].0 != before[at].0);
                    }
                    assert forall|j: int| 0 <= j < i implies rule(
                        (#[trigger] self.entries@[j]).0,
                        self.entries@[j].1,
                    ) by {
                        assert(self.entries@[j] == before[j]);
                    }
                }
            }
        }
        proof {
            lemma_map_of(self.entries@);
            assert(self@ =~= accepted(m, rule)) by {
                assert forall|k: TexKey| self@.contains_key(k) implies rule(k, self@[k]) by {
                    let j = choose|j: int| 0 <= j < self.entries@.len() && (#[trigger] self.entries@[j]).0 == k;
                    assert(self@[k] == self.entries@[j].1);
                }
            }
        }
    }
}

/// The part of a map that a rule accepts.
pub open spec fn accepted<V>(m: Map<TexKey, V>, rule: spec_fn(TexKey, V) -> bool) -> Map<TexKey, V> {
    m.restrict(Set::new(|k: TexKey| m.contains_key(k) && rule(k, m[k])))
}

} // verus!
