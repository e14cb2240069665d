//! Input directories: an absolute root path, a priority, and a filter
//! chain over the relative paths discovered under the root.
//!
//! Walking the file system is I/O and is done by the caller; the verified
//! part is the filter stage, which keeps exactly the discovered relative
//! paths the directory's chain accepts.

use vstd::prelude::*;

use crate::filters::{filter_set_accepts, FilterSet, FilterSetView};

verus! {

/// A prioritized input directory.
pub struct InputDirectory {
    /// The priority of this input - higher priorities are favored in
    /// conflict resolution.
    pub priority: u32,
    /// The filters used when enumerating the files in this directory.
    pub filters: FilterSet,
    /// The absolute path to the directory.
    pub path: String,
}

/// The discovered relative paths the chain `fs` accepts, in discovery
/// order.
pub open spec fn spec_accepted_files(fs: FilterSetView, candidates: Seq<Seq<char>>) -> Seq<
    Seq<char>,
> {
    candidates.filter(|p: Seq<char>| filter_set_accepts(fs, p))
}

impl InputDirectory {
    /// The filter stage of enumeration: of the relative paths discovered
    /// under this directory's root, exactly those its chain accepts, in
    /// discovery order.
    pub fn accept_files(&self, candidates: &Vec<String>) -> (r: Vec<String>)
        ensures
            r.deep_view() == spec_accepted_files(self.filters@, candidates.deep_view()),
    {
        let ghost cs = candidates.deep_view();
        let n: usize = candidates.len();
        let mut out: Vec<String> = Vec::new();
        proof {
            reveal(Seq::filter);
            assert(out.deep_view() =~= spec_accepted_files(self.filters@, cs.take(0)));
        }
        for i in 0..n
            invariant
                n == candidates.len(),
                candidates.deep_view() == cs,
                out.deep_view() == spec_accepted_files(self.filters@, cs.take(i as int)),
        {
            let ghost out0 = out.deep_view();
            let candidate: &String = &candidates[i];
            proof {
                assert(candidate@ == cs[i as int]);
                assert(cs.take(i as int + 1).drop_last() =~= cs.take(i as int));
                assert(cs.take(i as int + 1).last() == cs[i as int]);
            }
            if self.filters.is_acceptable(candidate.as_str()) {
                out.push(candidate.clone());
                proof {
                    reveal(Seq::filter);
                    assert(out.deep_view() =~= out0.push(cs[i as int]));
                    assert(spec_accepted_files(self.filters@, cs.take(i as int + 1))
                        == spec_accepted_files(self.filters@, cs.take(i as int)).push(
                        cs[i as int],
                    ));
                }
            } else {
                proof {
                    reveal(Seq::filter);
                    assert(spec_accepted_files(self.filters@, cs.take(i as int + 1))
                        == spec_accepted_files(self.filters@, cs.take(i as int)));
                }
            }
        }
        proof {
            assert(cs.take(n as int) =~= cs);
        }
        out
    }
}

} // verus!
