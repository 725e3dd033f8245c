//! Route-matching helpers over compiled regular expressions.
//!
//! The regex engine is an external collaborator: a compiled pattern is
//! opaque, and what it matches is named, not restated.  A compiled
//! pattern carries the text it was built from, so contracts can speak of
//! matching as a function of the pattern text and the haystack.

use vstd::prelude::*;

verus! {

/// Whether the regular expression written as `pattern` matches `text`.
/// The matching relation is the regex engine's; it depends on the two
/// texts alone.
pub uninterp spec fn regex_matches(pattern: Seq<char>, text: Seq<char>) -> bool;

/// Whether `pattern` is a regular expression the engine accepts under its
/// default build options.  Acceptance depends on the pattern text alone.
pub uninterp spec fn regex_compiles(pattern: Seq<char>) -> bool;

/// A compiled pattern together with the text it was compiled from.
pub struct CompiledPattern {
    re: regex::Regex,
    pattern: String,
}

#[verifier::external_type_specification]
#[verifier::external_body]
pub struct ExRegex(regex::Regex);

impl CompiledPattern {
    /// The text this pattern was compiled from.
    pub closed spec fn pattern_text(self) -> Seq<char> {
        self.pattern@
    }

    /// Relies on `regex::Regex::new` with its default options: succeeds
    /// exactly when the pattern text is acceptable (it fails on invalid
    /// syntax or an oversized automaton, and never panics); the compiled
    /// value matches as the pattern text says.
    #[verifier::external_body]
    pub fn compile(pattern: &str) -> (r: Option<CompiledPattern>)
        ensures
            r is Some <==> regex_compiles(pattern@),
            match r {
                Some(c) => c.pattern_text() == pattern@,
                None => true,
            },
    {
        match regex::Regex::new(pattern) {
            Ok(re) => Some(CompiledPattern { re, pattern: pattern.to_string() }),
            Err(_) => None,
        }
    }

    /// Relies on `regex::Regex::is_match`: true exactly when the pattern
    /// matches somewhere in `text`, a function of the two texts alone.
    #[verifier::external_body]
    pub fn is_match(&self, text: &str) -> (r: bool)
        ensures
            r == regex_matches(self.pattern_text(), text@),
    {
        self.re.is_match(text)
    }
}

/// Probes one pattern against a text repeatedly (a warm-up used when
/// timing route tables) and reports whether it matches.
pub fn url_test_regex(text: &str, re: &CompiledPattern) -> (r: bool)
    ensures
        r == regex_matches(re.pattern_text(), text@),
{
    let mut i: usize = 0;
    while i < 1000
        invariant
            i <= 1000,
        decreases 1000 - i,
    {
        let _ = re.is_match(text);
        i = i + 1;
    }
    re.is_match(text)
}

/// Compiles a route table: the table of every pattern in order exactly
/// when all of them compile, and `None` exactly when some pattern does
/// not.
pub fn make_regex_from_vec(patterns: Vec<&str>) -> (r: Option<Vec<CompiledPattern>>)
    ensures
        r is Some <==> (forall|i: int|
            0 <= i < patterns@.len() ==> regex_compiles(#[trigger] patterns@[i]@)),
        match r {
            Some(res) => res@.len() == patterns@.len() && forall|i: int|
                0 <= i < res@.len() ==> (#[trigger] res@[i]).pattern_text() == patterns@[i]@,
            None => true,
        },
{
    let mut output: Vec<CompiledPattern> = Vec::new();
    let mut i: usize = 0;
    while i < patterns.len()
        invariant
            i <= patterns@.len(),
            output@.len() == i,
            forall|k: int| 0 <= k < i ==> regex_compiles(#[trigger] patterns@[k]@),
            forall|k: int|
                0 <= k < i ==> (#[trigger] output@[k]).pattern_text() == patterns@[k]@,
        decreases patterns@.len() - i,
    {
        let pattern = patterns[i];
        match CompiledPattern::compile(pattern) {
            Some(c) => {
                output.push(c);
            },
            None => {
                proof {
                    assert(!regex_compiles(patterns@[i as int]@));
                }
                return None;
            },
        }
        i = i + 1;
    }
    Some(output)
}

} // verus!
