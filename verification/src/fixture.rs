//! Classification of downloaded user-agent fixture entries.
//!
//! The fixture tooling downloads third-party user-agent catalogues and sorts
//! each entry into bot or browser fixtures. The sorting rule is pure string
//! logic and lives here; the tooling itself only downloads, calls this, and
//! writes files.

use vstd::prelude::*;

use crate::parse::eq_chars;
use crate::text::{lower_chars, str_to_chars, to_lower};

verus! {

/// Whether `needle` occurs contiguously somewhere in `hay`. The empty needle
/// occurs in every sequence.
pub open spec fn contains_seq(hay: Seq<char>, needle: Seq<char>) -> bool {
    exists|j: int|
        0 <= j <= hay.len() - needle.len() && #[trigger] hay.subrange(j, j + needle.len() as int)
            == needle
}

/// How one downloaded catalogue entry is used.
#[derive(PartialEq, Eq, Debug, Structural)]
pub enum FixtureKind {
    /// The entry goes into the bot fixtures.
    Bot,
    /// The entry goes into the browser fixtures.
    Browser,
    /// The entry is discarded.
    Neither,
}

/// The sorting rule for a catalogue entry: the `Spider` family is a bot;
/// any other named family is a browser unless the user agent itself betrays
/// a crawler by containing `spider` or a bare URL; everything else is
/// discarded.
pub open spec fn spec_classify(family: Seq<char>, ua: Seq<char>) -> FixtureKind {
    if family == "Spider"@ {
        FixtureKind::Bot
    } else if family != "Other"@ && !contains_seq(to_lower(ua), "spider"@) && !contains_seq(
        to_lower(ua),
        "http://"@,
    ) {
        FixtureKind::Browser
    } else {
        FixtureKind::Neither
    }
}

/// Whether the window of `hay` starting at `j` equals `needle`.
fn window_eq(hay: &Vec<char>, needle: &Vec<char>, j: usize) -> (r: bool)
    requires
        j + needle@.len() <= hay@.len(),
    ensures
        r == (hay@.subrange(j as int, j + needle@.len() as int) == needle@),
{
    let h = hay.len();
    let n = needle.len();
    let mut t: usize = 0;
    while t < n
        invariant
            t <= n,
            n == needle@.len(),
            h == hay@.len(),
            j + n <= h,
            forall|k: int| 0 <= k < t ==> hay@[j + k] == needle@[k],
        decreases n - t,
    {
        if hay[j + t] != needle[t] {
            proof {
                assert(hay@.subrange(j as int, j + needle@.len() as int)[t as int] != needle@[
                    t as int
                ]);
            }
            return false;
        }
        t += 1;
    }
    proof {
        assert(hay@.subrange(j as int, j + needle@.len() as int) =~= needle@);
    }
    true
}

/// Executable substring search.
pub fn contains_chars_sub(hay: &Vec<char>, needle: &Vec<char>) -> (r: bool)
    ensures
        r == contains_seq(hay@, needle@),
{
    if needle.len() > hay.len() {
        return false;
    }
    if needle.len() == 0 {
        proof {
            assert(hay@.subrange(0, 0 + needle@.len() as int) =~= needle@);
        }
        return true;
    }
    let last = hay.len() - needle.len();
    let mut j: usize = 0;
    while j <= last
        invariant
            1 <= needle@.len() <= hay@.len(),
            hay@.len() <= usize::MAX,
            last == hay@.len() - needle@.len(),
            j <= last + 1,
            forall|k: int|
                0 <= k < j ==> #[trigger] hay@.subrange(k, k + needle@.len() as int) != needle@,
        decreases last + 1 - j,
    {
        if window_eq(hay, needle, j) {
            return true;
        }
        j += 1;
    }
    false
}

/// Sorts one downloaded catalogue entry, given its device family and its
/// user-agent string, into bot fixtures, browser fixtures, or neither.
pub fn classify_fixture_entry(family: &str, user_agent: &str) -> (r: FixtureKind)
    ensures
        r == spec_classify(family@, user_agent@),
{
    let fam = str_to_chars(family);
    let spider_family = str_to_chars("Spider");
    if eq_chars(&fam, &spider_family) {
        return FixtureKind::Bot;
    }
    let other_family = str_to_chars("Other");
    if eq_chars(&fam, &other_family) {
        return FixtureKind::Neither;
    }
    let ua = str_to_chars(user_agent);
    let low = lower_chars(&ua);
    let spider_mark = str_to_chars("spider");
    let url_mark = str_to_chars("http://");
    if contains_chars_sub(&low, &spider_mark) || contains_chars_sub(&low, &url_mark) {
        FixtureKind::Neither
    } else {
        FixtureKind::Browser
    }
}

} // verus!
