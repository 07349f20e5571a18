//! Finding a text in a list of texts by binary search.

use vstd::prelude::*;

use crate::order::{comes_before, is_sorted_order, sorted_order};
use crate::path::texts;
use crate::text::{
    chars_at_or_before, chars_le, chars_le_antisymmetric, chars_le_reflexive, chars_le_transitive,
    same_chars,
};

verus! {

/// A list of texts that can be searched by content.
pub struct TextIndex {
    keys: Vec<Vec<char>>,
    order: Vec<usize>,
}

impl View for TextIndex {
    type V = Seq<Seq<char>>;

    closed spec fn view(&self) -> Seq<Seq<char>> {
        texts(self.keys@)
    }
}

/// Position of the first text equal to `wanted`.
pub open spec fn first_position(list: Seq<Seq<char>>, wanted: Seq<char>, found: Option<usize>) -> bool {
    match found {
        Some(i) => {
            &&& i < list.len()
            &&& list[i as int] == wanted
            &&& forall|k: int| 0 <= k < i ==> list[k] != wanted
        },
        None => forall|k: int| 0 <= k < list.len() ==> list[k] != wanted,
    }
}

impl TextIndex {
    #[verifier::type_invariant]
    spec fn ordered(self) -> bool {
        is_sorted_order(self.order@, self.keys@)
    }

    /// Prepares `keys` for searching.
    pub fn new(keys: Vec<Vec<char>>) -> (index: Self)
        ensures
            index@ == texts(keys@),
    {
        let order = sorted_order(&keys);
        TextIndex { keys, order }
    }

    /// Finds the first text equal to `wanted`.
    pub fn find(&self, wanted: &Vec<char>) -> (found: Option<usize>)
        ensures
            first_position(self@, wanted@, found),
    {
        proof {
            use_type_invariant(self);
        }
        let n: usize = self.order.len();
        let mut lo: usize = 0;
        let mut hi: usize = n;
        // Everything listed before `lo` is strictly below the wanted text;
        // everything from `hi` on is at or above it.
        while lo < hi
            invariant
                is_sorted_order(self.order@, self.keys@),
                n == self.order.len(),
                lo <= hi <= n,
                forall|p: int|
                    0 <= p < lo ==> !chars_le(wanted@, self.keys@[#[trigger] self.order@[p] as int]@),
                forall|p: int|
                    hi <= p < n ==> chars_le(wanted@, self.keys@[#[trigger] self.order@[p] as int]@),
            decreases hi - lo,
        {
            let mid: usize = lo + (hi - lo) / 2;
            proof {
                assert(self.order@.contains(self.order@[mid as int]));
            }
            let at: usize = self.order[mid];
            if chars_at_or_before(wanted, &self.keys[at]) {
                proof {
                    assert forall|p: int| mid <= p < n implies chars_le(
                        wanted@,
                        self.keys@[#[trigger] self.order@[p] as int]@,
                    ) by {
                        if p > mid {
                            assert(comes_before(self.keys@, self.order@[mid as int] as int, self.order@[p] as int));
                            chars_le_transitive(wanted@, self.keys@[at as int]@, self.keys@[self.order@[p] as int]@);
                        }
                    }
                }
                hi = mid;
            } else {
                proof {
                    assert forall|p: int| 0 <= p <= mid implies !chars_le(
                        wanted@,
                        self.keys@[#[trigger] self.order@[p] as int]@,
                    ) by {
                        if p < mid {
                            assert(comes_before(self.keys@, self.order@[p] as int, self.order@[mid as int] as int));
                            if chars_le(wanted@, self.keys@[self.order@[p] as int]@) {
                                chars_le_transitive(
                                    wanted@,
                                    self.keys@[self.order@[p] as int]@,
                                    self.keys@[at as int]@,
                                );
                            }
                        }
                    }
                }
                lo = mid + 1;
            }
        }
        if lo < n {
            proof {
                assert(self.order@.contains(self.order@[lo as int]));
            }
            let at: usize = self.order[lo];
            if same_chars(wanted, &self.keys[at]) {
                proof {
                    assert forall|k: int| 0 <= k < at implies self@[k] != wanted@ by {
                        assert(self.order@.contains(k as usize));
                        let p = choose|p: int| 0 <= p < n && self.order@[p] == k;
                        if self.keys@[k]@ == wanted@ {
                            chars_le_reflexive(wanted@);
                            if p > lo {
                                assert(comes_before(self.keys@, at as int, k));
                            }
                        }
                    }
                }
                return Some(at);
            }
        }
        proof {
            assert forall|k: int| 0 <= k < self@.len() implies self@[k] != wanted@ by {
                assert(self.order@.contains(k as usize));
                let p = choose|p: int| 0 <= p < n && self.order@[p] == k;
                if self.keys@[k]@ == wanted@ {
                    chars_le_reflexive(wanted@);
                    if p > lo {
                        assert(comes_before(self.keys@, self.order@[lo as int] as int, k));
                        chars_le_antisymmetric(wanted@, self.keys@[self.order@[lo as int] as int]@);
                    }
                }
            }
        }
        None
    }
}

} // verus!
