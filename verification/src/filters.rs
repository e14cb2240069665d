//! Filter chains: ordered accept/reject rules over path text.
//!
//! A chain is evaluated in order; the first pattern that matches the
//! candidate decides the verdict, and a candidate no pattern matches falls
//! back to the chain's `accept_unmatched` flag.

use vstd::prelude::*;

use crate::patterns::{glob_match, regex_match, CompiledGlob, CompiledRegex};

verus! {

/// Defines a pattern that file paths are matched against.
pub enum FilterPattern {
    /// A regular-expression filter.
    Regex(CompiledRegex),
    /// A glob filter.
    Glob(CompiledGlob),
}

/// The mathematical shape of a pattern: its kind and its pattern text.
pub enum FilterPatternView {
    Regex(Seq<char>),
    Glob(Seq<char>),
}

impl View for FilterPattern {
    type V = FilterPatternView;

    open spec fn view(&self) -> FilterPatternView {
        match self {
            FilterPattern::Regex(r) => FilterPatternView::Regex(r@),
            FilterPattern::Glob(g) => FilterPatternView::Glob(g@),
        }
    }
}

/// Whether the pattern `p` matches the path `path`.
pub open spec fn pattern_matches(p: FilterPatternView, path: Seq<char>) -> bool {
    match p {
        FilterPatternView::Regex(src) => regex_match(src, path),
        FilterPatternView::Glob(src) => glob_match(src, path),
    }
}

impl FilterPattern {
    /// Tests whether or not the pattern matches the given path.
    pub fn is_match(&self, path: &str) -> (r: bool)
        ensures
            r == pattern_matches(self@, path@),
    {
        match self {
            FilterPattern::Regex(re) => re.is_match(path),
            FilterPattern::Glob(g) => g.is_match(path),
        }
    }
}

/// The action that is performed if a file matches a filter.
#[derive(Copy, Clone, Debug, PartialEq, Eq, Structural)]
pub enum FilterAction {
    /// The file is accepted.
    Accept,
    /// The file is rejected.
    Reject,
}

/// A filter that accepts or rejects a file if it matches a pattern.
pub struct Filter {
    /// The pattern that file paths are matched against.
    pattern: FilterPattern,
    /// The action that is taken if the file path matches this filter.
    /// The file is ignored otherwise.
    action: FilterAction,
}

/// The mathematical shape of one filter.
pub struct FilterView {
    pub pattern: FilterPatternView,
    pub action: FilterAction,
}

impl View for Filter {
    type V = FilterView;

    closed spec fn view(&self) -> FilterView {
        FilterView { pattern: self.pattern@, action: self.action }
    }
}

/// The verdict of one filter on one path: its action if the pattern
/// matches, nothing otherwise.
pub open spec fn spec_test(f: FilterView, path: Seq<char>) -> Option<FilterAction> {
    if pattern_matches(f.pattern, path) {
        Some(f.action)
    } else {
        None
    }
}

impl Filter {
    /// Tests a file path against this filter, returning the filter's action
    /// if it matches, or `None` otherwise.
    pub fn test(&self, path: &str) -> (r: Option<FilterAction>)
        ensures
            r == spec_test(self@, path@),
    {
        if self.pattern.is_match(path) {
            Some(self.action)
        } else {
            None
        }
    }
}

/// An ordered set of filters. A file path is checked against each filter in
/// turn.
pub struct FilterSet {
    /// The ordered list of filters to test candidates with.
    filters: Vec<Filter>,
    /// Indicates whether or not candidates are accepted even if they
    /// don't match any filters.
    pub accept_unmatched: bool,
}

/// The mathematical shape of a filter chain.
pub struct FilterSetView {
    pub filters: Seq<FilterView>,
    pub accept_unmatched: bool,
}

impl View for FilterSet {
    type V = FilterSetView;

    closed spec fn view(&self) -> FilterSetView {
        FilterSetView {
            filters: self.filters@.map_values(|f: Filter| f@),
            accept_unmatched: self.accept_unmatched,
        }
    }
}

/// The verdict of a chain on a path: the action of the first filter whose
/// pattern matches, or `default` when none matches.
pub open spec fn chain_verdict(filters: Seq<FilterView>, default: bool, path: Seq<char>) -> bool
    decreases filters.len(),
{
    if filters.len() == 0 {
        default
    } else if pattern_matches(filters[0].pattern, path) {
        filters[0].action is Accept
    } else {
        chain_verdict(filters.drop_first(), default, path)
    }
}

/// Whether the chain `fs` accepts the path `path`.
pub open spec fn filter_set_accepts(fs: FilterSetView, path: Seq<char>) -> bool {
    chain_verdict(fs.filters, fs.accept_unmatched, path)
}

impl FilterSet {
    /// Creates an empty filter set that rejects unmatched candidates by
    /// default.
    pub fn new() -> (r: FilterSet)
        ensures
            r@.filters == Seq::<FilterView>::empty(),
            r@.accept_unmatched == false,
    {
        let r = FilterSet { filters: Vec::new(), accept_unmatched: false };
        proof {
            assert(r@.filters =~= Seq::<FilterView>::empty());
        }
        r
    }

    /// Returns whether or not the file path passes all filters.
    pub fn is_acceptable(&self, path: &str) -> (r: bool)
        ensures
            r == filter_set_accepts(self@, path@),
    {
        let n: usize = self.filters.len();
        proof {
            assert(self@.filters.skip(0) =~= self@.filters);
        }
        for i in 0..n
            invariant
                n == self.filters.len(),
                filter_set_accepts(self@, path@) == chain_verdict(
                    self@.filters.skip(i as int),
                    self.accept_unmatched,
                    path@,
                ),
        {
            let verdict = self.filters[i].test(path);
            proof {
                assert(self@.filters.skip(i as int)[0] == self@.filters[i as int]);
                assert(self@.filters.skip(i as int).drop_first() =~= self@.filters.skip(
                    i as int + 1,
                ));
            }
            match verdict {
                Some(FilterAction::Accept) => {
                    return true;
                },
                Some(FilterAction::Reject) => {
                    return false;
                },
                None => {},
            }
        }
        proof {
            assert(self@.filters.skip(n as int) =~= Seq::<FilterView>::empty());
        }
        self.accept_unmatched
    }

    /// Creates and appends a filter with the provided pattern and action.
    pub fn append(&mut self, pattern: FilterPattern, action: FilterAction)
        ensures
            final(self)@.filters == old(self)@.filters.push(
                FilterView { pattern: pattern@, action },
            ),
            final(self)@.accept_unmatched == old(self)@.accept_unmatched,
    {
        let ghost fv = FilterView { pattern: pattern@, action };
        self.filters.push(Filter { pattern, action });
        proof {
            assert(self@.filters =~= old(self)@.filters.push(fv));
        }
    }

    /// Creates and appends a filter that matches the provided regular
    /// expression with the given action.
    pub fn append_regex(&mut self, pattern: CompiledRegex, action: FilterAction)
        ensures
            final(self)@.filters == old(self)@.filters.push(
                FilterView { pattern: FilterPatternView::Regex(pattern@), action },
            ),
            final(self)@.accept_unmatched == old(self)@.accept_unmatched,
    {
        self.append(FilterPattern::Regex(pattern), action);
    }

    /// Creates and appends a filter that matches the provided glob with the
    /// given action.
    pub fn append_glob(&mut self, pattern: CompiledGlob, action: FilterAction)
        ensures
            final(self)@.filters == old(self)@.filters.push(
                FilterView { pattern: FilterPatternView::Glob(pattern@), action },
            ),
            final(self)@.accept_unmatched == old(self)@.accept_unmatched,
    {
        self.append(FilterPattern::Glob(pattern), action);
    }
}

impl Default for FilterSet {
    fn default() -> (r: Self)
        ensures
            r@.filters == Seq::<FilterView>::empty(),
            r@.accept_unmatched == false,
    {
        Self::new()
    }
}

} // verus!
