//! Trusted boundary to the `regex` crate.
//!
//! The store compiles its patterns into one `regex::RegexSet`, the crate's
//! multi-pattern matcher, so that every query runs a single pass whatever the
//! number of patterns. Everything the verified code believes about that
//! matcher is stated here, over three named functions of plain values:
//! whether one pattern matches a text, whether a sequence of patterns is
//! accepted by the compiler, and which patterns a compiled set holds.

use vstd::prelude::*;

verus! {

#[verifier::external_type_specification]
#[verifier::external_body]
pub struct ExRegexSet(regex::RegexSet);

/// Whether the regular expression `pattern` matches somewhere in `text`,
/// as the `regex` crate decides it. A function of the two sequences alone:
/// the crate's matching is deterministic.
pub uninterp spec fn regex_match(pattern: Seq<char>, text: Seq<char>) -> bool;

/// Whether `regex::RegexSet::new` accepts this sequence of patterns. A
/// function of the sequence alone: compilation is deterministic.
pub uninterp spec fn regexes_ok(patterns: Seq<Seq<char>>) -> bool;

/// The patterns a compiled set was built from, in order.
pub uninterp spec fn set_patterns(rs: regex::RegexSet) -> Seq<Seq<char>>;

/// Whether at least one of `patterns` matches `text`.
pub open spec fn seq_matches(patterns: Seq<Seq<char>>, text: Seq<char>) -> bool {
    exists|i: int| 0 <= i < patterns.len() && regex_match(#[trigger] patterns[i], text)
}

/// Whether a pattern sequence can back a store: the compiler accepts it, or
/// it is empty, in which case the never-matching empty set stands in.
pub open spec fn buildable(patterns: Seq<Seq<char>>) -> bool {
    patterns.len() == 0 || regexes_ok(patterns)
}

/// Relies on `regex::RegexSet::new`: building a set from the given patterns
/// succeeds or fails deterministically in the patterns, and on success the
/// set holds exactly those patterns, in order.
#[verifier::external_body]
pub(crate) fn compile_set(patterns: &Vec<Vec<char>>) -> (r: Option<regex::RegexSet>)
    ensures
        r is Some <==> regexes_ok(patterns.deep_view()),
        r matches Some(rs) ==> set_patterns(rs) == patterns.deep_view(),
{
    let exprs: Vec<String> = patterns.iter().map(|p| p.iter().collect::<String>()).collect();
    regex::RegexSet::new(exprs).ok()
}

/// Relies on `regex::RegexSet::empty`: the empty set always builds, holds no
/// patterns, and so (by `set_is_match` below) matches nothing.
#[verifier::external_body]
pub(crate) fn empty_set() -> (r: regex::RegexSet)
    ensures
        set_patterns(r) == Seq::<Seq<char>>::empty(),
{
    regex::RegexSet::empty()
}

/// Relies on `regex::RegexSet::is_match`: returns true if and only if at
/// least one of the set's patterns matches the text.
#[verifier::external_body]
pub(crate) fn set_is_match(rs: &regex::RegexSet, text: &Vec<char>) -> (r: bool)
    ensures
        r == (exists|i: int|
            0 <= i < set_patterns(*rs).len() && regex_match(
                #[trigger] set_patterns(*rs)[i],
                text@,
            )),
{
    let hay: String = text.iter().collect();
    rs.is_match(&hay)
}

} // verus!
