//! A set of photos.

use vstd::prelude::*;

use crate::model::PhotoId;
use crate::order::lemma_push_contains;

verus! {

/// A set of photos, kept as a list without repetitions.
#[derive(Debug)]
pub struct IdSet {
    ids: Vec<PhotoId>,
}

impl View for IdSet {
    type V = Set<PhotoId>;

    closed spec fn view(&self) -> Set<PhotoId> {
        self.ids@.to_set()
    }
}

impl IdSet {
    #[verifier::type_invariant]
    spec fn no_repeats(self) -> bool {
        self.ids@.no_duplicates()
    }

    /// The empty set.
    pub fn new() -> (set: Self)
        ensures
            set@ == Set::<PhotoId>::empty(),
    {
        let set = IdSet { ids: Vec::new() };
        proof {
            assert(set@ =~= Set::<PhotoId>::empty());
        }
        set
    }

    /// Number of photos.
    pub fn len(&self) -> (n: usize)
        ensures
            n == self@.len(),
            self@.finite(),
    {
        proof {
            use_type_invariant(self);
            self.ids@.unique_seq_to_set();
        }
        self.ids.len()
    }

    /// Whether there is no photo.
    pub fn is_empty(&self) -> (r: bool)
        ensures
            r == (self@ == Set::<PhotoId>::empty()),
    {
        proof {
            if self.ids.len() > 0 {
                assert(self.ids@.contains(self.ids@[0]));
                assert(self@.contains(self.ids@[0]));
            } else {
                assert(self@ =~= Set::<PhotoId>::empty());
            }
        }
        self.ids.len() == 0
    }

    /// Whether a photo is in the set.
    pub fn contains(&self, id: PhotoId) -> (r: bool)
        ensures
            r == self@.contains(id),
    {
        crate::tex::lists_id(&self.ids, id)
    }

    /// Adds a photo.
    pub fn insert(&mut self, id: PhotoId)
        ensures
            final(self)@ == old(self)@.insert(id),
    {
        proof {
            use_type_invariant(&*self);
        }
        if crate::tex::lists_id(&self.ids, id) {
            proof {
                assert(self@.insert(id) =~= self@);
            }
            return ;
        }
        let ghost before = self.ids@;
        let mut ids: Vec<PhotoId> = Vec::new();
        core::mem::swap(&mut ids, &mut self.ids);
        ids.push(id);
        proof {
            lemma_push_contains(before, id);
            assert(ids@.to_set() =~= before.to_set().insert(id)) by {
                assert forall|x: PhotoId| ids@.to_set().contains(x) <==> before.to_set().insert(id).contains(x) by {
                    assert(ids@.contains(x) <==> before.contains(x) || x == id);
                }
            }
            assert forall|i: int, j: int| 0 <= i < ids@.len() && 0 <= j < ids@.len() && i != j implies ids@[i]
                != ids@[j] by {
                if i < before.len() && j == before.len() {
                    assert(before.contains(before[i]));
                }
                if j < before.len() && i == before.len() {
                    assert(before.contains(before[j]));
                }
            }
        }
        self.ids = ids;
    }

    /// Removes a photo; says whether it was there.
    pub fn remove(&mut self, id: PhotoId) -> (was_there: bool)
        ensures
            was_there == old(self)@.contains(id),
            final(self)@ == old(self)@.remove(id),
    {
        proof {
            use_type_invariant(&*self);
        }
        let mut kept: Vec<PhotoId> = Vec::new();
        let mut was_there: bool = false;
        let mut i: usize = 0;
        while i < self.ids.len()
            invariant
                i <= self.ids.len(),
                *self == *old(self),
                self.ids@.no_duplicates(),
                kept@.no_duplicates(),
                was_there == self.ids@.take(i as int).contains(id),
                forall|x: PhotoId| #[trigger]
                    kept@.contains(x) <==> self.ids@.take(i as int).contains(x) && x != id,
            decreases self.ids.len() - i,
        {
            let ghost done = self.ids@.take(i as int);
            let ghost kept0 = kept@;
            let x: PhotoId = self.ids[i];
            proof {
                assert(self.ids@.take(i + 1) =~= done.push(x));
                lemma_push_contains(done, x);
                lemma_push_contains(kept0, x);
                if done.contains(x) {
                    let k = choose|k: int| 0 <= k < done.len() && done[k] == x;
                    assert(self.ids@[k] == self.ids@[i as int]);
                }
            }
            if x == id {
                was_there = true;
            } else {
                kept.push(x);
                proof {
                    assert forall|a: int, b: int| 0 <= a < kept@.len() && 0 <= b < kept@.len() && a != b implies kept@[a]
                        != kept@[b] by {
                        if a < kept0.len() && b == kept0.len() {
                            assert(kept0.contains(kept0[a]));
                        }
                        if b < kept0.len() && a == kept0.len() {
                            assert(kept0.contains(kept0[b]));
                        }
                    }
                }
            }
            proof {
                assert forall|y: PhotoId| #[trigger] kept@.contains(y) <==> self.ids@.take(i + 1).contains(y) && y
                    != id by {
                    assert(kept0.contains(y) <==> done.contains(y) && y != id);
                    assert(done.push(x).contains(y) <==> done.contains(y) || y == x);
                    assert(kept0.push(x).contains(y) <==> kept0.contains(y) || y == x);
                }
            }
            i = i + 1;
        }
        let ghost all = self.ids@;
        proof {
            assert(all.take(i as int) =~= all);
        }
        self.ids = kept;
        proof {
            assert(self@ =~= all.to_set().remove(id)) by {
                assert forall|x: PhotoId| self@.contains(x) <==> all.to_set().remove(id).contains(x) by {
                    assert(kept@.contains(x) <==> all.contains(x) && x != id);
                }
            }
        }
        was_there
    }

    /// A copy.
    pub fn copy(&self) -> (set: Self)
        ensures
            set@ == self@,
    {
        proof {
            use_type_invariant(self);
        }
        let mut ids: Vec<PhotoId> = Vec::new();
        let mut i: usize = 0;
        while i < self.ids.len()
            invariant
                i <= self.ids.len(),
                ids@ == self.ids@.take(i as int),
            decreases self.ids.len() - i,
        {
            ids.push(self.ids[i]);
            proof {
                assert(self.ids@.take(i + 1) =~= self.ids@.take(i as int).push(self.ids@[i as int]));
            }
            i = i + 1;
        }
        proof {
            assert(self.ids@.take(i as int) =~= self.ids@);
        }
        IdSet { ids }
    }

    /// The set of the listed photos.
    pub fn of(list: &Vec<PhotoId>) -> (set: Self)
        ensures
            set@ == list@.to_set(),
    {
        let mut set = IdSet::new();
        let mut i: usize = 0;
        proof {
            assert(list@.take(0).to_set() =~= Set::<PhotoId>::empty());
        }
        while i < list.len()
            invariant
                i <= list.len(),
                set@ == list@.take(i as int).to_set(),
            decreases list.len() - i,
        {
            set.insert(list[i]);
            proof {
                let done = list@.take(i as int);
                assert(list@.take(i + 1) =~= done.push(list@[i as int]));
                lemma_push_contains(done, list@[i as int]);
                assert(list@.take(i + 1).to_set() =~= done.to_set().insert(list@[i as int])) by {
                    assert forall|x: PhotoId| list@.take(i + 1).to_set().contains(x) <==> done.to_set().insert(
                        list@[i as int],
                    ).contains(x) by {
                        assert(done.push(list@[i as int]).contains(x) <==> done.contains(x) || x == list@[i as int]);
                    }
                }
            }
            i = i + 1;
        }
        proof {
            assert(list@.take(i as int) =~= list@);
        }
        set
    }

    /// Both sets together.
    pub fn union(&self, other: &IdSet) -> (set: Self)
        ensures
            set@ == self@.union(other@),
    {
        let mut set = self.copy();
        let mut i: usize = 0;
        proof {
            assert(other.ids@.take(0).to_set() =~= Set::<PhotoId>::empty());
            assert(self@.union(Set::<PhotoId>::empty()) =~= self@);
        }
        while i < other.ids.len()
            invariant
                i <= other.ids.len(),
                set@ == self@.union(other.ids@.take(i as int).to_set()),
            decreases other.ids.len() - i,
        {
            set.insert(other.ids[i]);
            proof {
                let done = other.ids@.take(i as int);
                let x = other.ids@[i as int];
                assert(other.ids@.take(i + 1) =~= done.push(x));
                lemma_push_contains(done, x);
                assert(self@.union(other.ids@.take(i + 1).to_set()) =~= self@.union(done.to_set()).insert(x)) by {
                    assert forall|y: PhotoId| other.ids@.take(i + 1).to_set().contains(y) <==> done.to_set().contains(
                        y,
                    ) || y == x by {
                        assert(done.push(x).contains(y) <==> done.contains(y) || y == x);
                    }
                }
            }
            i = i + 1;
        }
        proof {
            assert(other.ids@.take(i as int) =~= other.ids@);
        }
        set
    }
}

} // verus!
