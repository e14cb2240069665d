//! Compiled path-matching patterns.
//!
//! The two pattern kinds the filter chains understand — regular expressions
//! and shell-style globs — are supplied by outside crates. Each compiled
//! pattern is stored together with the text it was compiled from, and what
//! matching returns is named by an uninterpreted function of that text and
//! the candidate path: both crates compute the verdict from those two
//! strings alone.

use vstd::prelude::*;

verus! {

#[verifier::external_type_specification]
#[verifier::external_body]
pub struct ExRegex(regex::Regex);

#[verifier::external_type_specification]
#[verifier::external_body]
pub struct ExGlobPattern(glob::Pattern);

/// Whether `regex::Regex::new` accepts `pattern`.
pub uninterp spec fn regex_compiles(pattern: Seq<char>) -> bool;

/// Whether the regular expression compiled from `pattern` matches anywhere
/// in `text`.
pub uninterp spec fn regex_match(pattern: Seq<char>, text: Seq<char>) -> bool;

/// Whether `glob::Pattern::new` accepts `pattern`.
pub uninterp spec fn glob_compiles(pattern: Seq<char>) -> bool;

/// Whether the glob compiled from `pattern` matches the whole of `text`.
pub uninterp spec fn glob_match(pattern: Seq<char>, text: Seq<char>) -> bool;

/// A regular expression together with the pattern text it was compiled
/// from. The two fields only ever travel together: the trusted constructor
/// below is the one way to obtain a value.
pub struct CompiledRegex {
    pattern: String,
    compiled: regex::Regex,
}

impl View for CompiledRegex {
    type V = Seq<char>;

    closed spec fn view(&self) -> Seq<char> {
        self.pattern@
    }
}

impl CompiledRegex {
    /// Relies on `regex::Regex::new`: compilation is deterministic in the
    /// pattern text and returns `Err` exactly on the patterns the crate
    /// rejects.
    #[verifier::external_body]
    pub fn compile(pattern: &str) -> (r: Option<CompiledRegex>)
        ensures
            r is Some <==> regex_compiles(pattern@),
            r matches Some(c) ==> c@ == pattern@,
    {
        match regex::Regex::new(pattern) {
            Ok(compiled) => Some(CompiledRegex { pattern: pattern.to_owned(), compiled }),
            Err(_) => None,
        }
    }

    /// Relies on `regex::Regex::is_match`: the verdict is a function of the
    /// pattern text and the haystack alone.
    #[verifier::external_body]
    pub fn is_match(&self, text: &str) -> (r: bool)
        ensures
            r == regex_match(self@, text@),
    {
        self.compiled.is_match(text)
    }

    /// The pattern text this value was compiled from.
    pub fn pattern(&self) -> (r: &str)
        ensures
            r@ == self@,
    {
        self.pattern.as_str()
    }
}

/// A shell-style glob together with the pattern text it was compiled from.
pub struct CompiledGlob {
    pattern: String,
    compiled: glob::Pattern,
}

impl View for CompiledGlob {
    type V = Seq<char>;

    closed spec fn view(&self) -> Seq<char> {
        self.pattern@
    }
}

impl CompiledGlob {
    /// Relies on `glob::Pattern::new`: compilation is deterministic in the
    /// pattern text and returns `Err` exactly on the patterns the crate
    /// rejects.
    #[verifier::external_body]
    pub fn compile(pattern: &str) -> (r: Option<CompiledGlob>)
        ensures
            r is Some <==> glob_compiles(pattern@),
            r matches Some(c) ==> c@ == pattern@,
    {
        match glob::Pattern::new(pattern) {
            Ok(compiled) => Some(CompiledGlob { pattern: pattern.to_owned(), compiled }),
            Err(_) => None,
        }
    }

    /// Relies on `glob::Pattern::matches` (with the default match options):
    /// the verdict is a function of the pattern text and the candidate
    /// alone.
    #[verifier::external_body]
    pub fn is_match(&self, text: &str) -> (r: bool)
        ensures
            r == glob_match(self@, text@),
    {
        self.compiled.matches(text)
    }

    /// The pattern text this value was compiled from.
    pub fn pattern(&self) -> (r: &str)
        ensures
            r@ == self@,
    {
        self.pattern.as_str()
    }
}

} // verus!
