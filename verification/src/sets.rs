//! A set of strings with insertion and membership tests.
//!
//! The claiming pass records claimed output identities and claimed output
//! paths in run-scoped sets; this type backs both, and its view is the
//! mathematical set of the strings it holds.

use vstd::prelude::*;

verus! {

/// A run-scoped set of strings.
pub struct StringSet {
    items: Vec<String>,
}

impl View for StringSet {
    type V = Set<Seq<char>>;

    closed spec fn view(&self) -> Set<Seq<char>> {
        self.items.deep_view().to_set()
    }
}

impl StringSet {
    /// Creates an empty set.
    pub fn new() -> (r: StringSet)
        ensures
            r@ == Set::<Seq<char>>::empty(),
    {
        let r = StringSet { items: Vec::new() };
        proof {
            assert(r@ =~= Set::<Seq<char>>::empty());
        }
        r
    }

    /// Whether `x` is a member of the set.
    pub fn contains(&self, x: &String) -> (r: bool)
        ensures
            r == self@.contains(x@),
    {
        let n: usize = self.items.len();
        for i in 0..n
            invariant
                n == self.items.len(),
                forall|j: int| 0 <= j < i ==> self.items.deep_view()[j] != x@,
        {
            if self.items[i].eq(x) {
                proof {
                    assert(self.items.deep_view()[i as int] == x@);
                    assert(self.items.deep_view().contains(x@));
                }
                return true;
            }
        }
        proof {
            assert(!self.items.deep_view().contains(x@));
        }
        false
    }

    /// Inserts `x`; returns whether `x` was newly added, as opposed to
    /// already present.
    pub fn insert(&mut self, x: String) -> (r: bool)
        ensures
            final(self)@ == old(self)@.insert(x@),
            r == !old(self)@.contains(x@),
    {
        if self.contains(&x) {
            proof {
                assert(self@ =~= old(self)@.insert(x@));
            }
            false
        } else {
            self.items.push(x);
            proof {
                assert(self.items.deep_view() =~= old(self).items.deep_view().push(x@));
                assert forall|y: Seq<char>| self@.contains(y) <==> old(self)@.insert(x@).contains(
                    y,
                ) by {
                    if self.items.deep_view().contains(y) {
                        let j = choose|j: int|
                            0 <= j < self.items.deep_view().len() && self.items.deep_view()[j]
                                == y;
                        if j < old(self).items.deep_view().len() {
                            assert(old(self).items.deep_view().contains(y));
                        }
                    }
                    if old(self).items.deep_view().contains(y) {
                        let j = choose|j: int|
                            0 <= j < old(self).items.deep_view().len() && old(
                                self,
                            ).items.deep_view()[j] == y;
                        assert(self.items.deep_view()[j] == y);
                    }
                    if y == x@ {
                        assert(self.items.deep_view().last() == x@);
                    }
                }
                assert(self@ =~= old(self)@.insert(x@));
            }
            true
        }
    }

}

} // verus!
