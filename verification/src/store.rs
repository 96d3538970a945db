//! The pattern store: a de-duplicated collection of lower-cased bot
//! signature patterns together with the single matcher compiled from them.
//!
//! The matcher always reflects exactly the current pattern sequence: every
//! mutation rebuilds it before returning, and a type invariant ties the
//! compiled set to the stored patterns at every observable instant.

use vstd::prelude::*;

use crate::defaults::DEFAULT_BOT_PATTERNS;
use crate::matcher::{
    buildable, compile_set, empty_set, regex_match, seq_matches, set_is_match, set_patterns,
};
use crate::parse::{contains_chars, parse_patterns, patterns_of};
use crate::text::{clone_chars, lower_chars, str_to_chars, to_lower};

verus! {

/// Whether a store holding `patterns` classifies `ua` as a bot: at least one
/// pattern matches the lower-cased user agent.
pub open spec fn spec_is_bot(patterns: Seq<Seq<char>>, ua: Seq<char>) -> bool {
    seq_matches(patterns, to_lower(ua))
}

/// The lower-cased images of a sequence of raw pattern entries.
pub open spec fn lowered(entries: Seq<Seq<char>>) -> Seq<Seq<char>> {
    entries.map_values(|q: Seq<char>| to_lower(q))
}

/// Whether `p` is the lower-cased image of one of the raw entries.
pub open spec fn lowered_contains(entries: Seq<Seq<char>>, p: Seq<char>) -> bool {
    lowered(entries).contains(p)
}

/// The pattern sequence after appending raw entries: each is lower-cased and
/// added unless already present, first occurrences kept in order.
pub open spec fn with_appended(ps: Seq<Seq<char>>, news: Seq<Seq<char>>) -> Seq<Seq<char>>
    decreases news.len(),
{
    if news.len() == 0 {
        ps
    } else {
        let front = with_appended(ps, news.drop_last());
        let p = to_lower(news.last());
        if front.contains(p) {
            front
        } else {
            front.push(p)
        }
    }
}

/// The pattern sequence after removing raw entries: a stored pattern is
/// dropped exactly when it equals the lower-cased image of some entry.
pub open spec fn with_removed(ps: Seq<Seq<char>>, entries: Seq<Seq<char>>) -> Seq<Seq<char>>
    decreases ps.len(),
{
    if ps.len() == 0 {
        ps
    } else {
        let front = with_removed(ps.drop_last(), entries);
        if lowered_contains(entries, ps.last()) {
            front
        } else {
            front.push(ps.last())
        }
    }
}

/// Whether a store holding the pattern set `patterns` classifies `ua` as a
/// bot: the set-level counterpart of `spec_is_bot`.
pub open spec fn set_is_bot(patterns: Set<Seq<char>>, ua: Seq<char>) -> bool {
    exists|p: Seq<char>| #[trigger] patterns.contains(p) && regex_match(p, to_lower(ua))
}

/// Classification over a pattern sequence and over the set of its patterns
/// agree: which patterns are stored matters, their order does not.
pub proof fn lemma_is_bot_seq_set(ps: Seq<Seq<char>>, ua: Seq<char>)
    ensures
        spec_is_bot(ps, ua) == set_is_bot(ps.to_set(), ua),
{
    if spec_is_bot(ps, ua) {
        let i = choose|i: int| 0 <= i < ps.len() && regex_match(#[trigger] ps[i], to_lower(ua));
        assert(ps.to_set().contains(ps[i]));
    }
    if set_is_bot(ps.to_set(), ua) {
        let p = choose|p: Seq<char>|
            #[trigger] ps.to_set().contains(p) && regex_match(p, to_lower(ua));
        let i = choose|i: int| 0 <= i < ps.len() && ps[i] == p;
        assert(regex_match(ps[i], to_lower(ua)));
    }
}

/// A pattern already present survives an append.
pub proof fn lemma_with_appended_keeps(ps: Seq<Seq<char>>, news: Seq<Seq<char>>, p: Seq<char>)
    requires
        ps.contains(p),
    ensures
        with_appended(ps, news).contains(p),
    decreases news.len(),
{
    if news.len() > 0 {
        lemma_with_appended_keeps(ps, news.drop_last(), p);
        let front = with_appended(ps, news.drop_last());
        let q = to_lower(news.last());
        if !front.contains(q) {
            let k = choose|k: int| 0 <= k < front.len() && front[k] == p;
            assert(front.push(q)[k] == p);
        }
    }
}

/// After an append, the lower-cased image of every appended entry is present.
pub proof fn lemma_with_appended_adds(ps: Seq<Seq<char>>, news: Seq<Seq<char>>, j: int)
    requires
        0 <= j < news.len(),
    ensures
        with_appended(ps, news).contains(to_lower(news[j])),
    decreases news.len(),
{
    let front = with_appended(ps, news.drop_last());
    let q = to_lower(news.last());
    if j == news.len() - 1 {
        if front.contains(q) {
        } else {
            assert(front.push(q)[front.len() as int] == q);
        }
    } else {
        lemma_with_appended_adds(ps, news.drop_last(), j);
        assert(news.drop_last()[j] == news[j]);
        let p = to_lower(news[j]);
        if !front.contains(q) {
            let k = choose|k: int| 0 <= k < front.len() && front[k] == p;
            assert(front.push(q)[k] == p);
        }
    }
}

/// Every pattern present after an append was stored before it or is the
/// lower-cased image of an appended entry.
proof fn lemma_with_appended_elements(ps: Seq<Seq<char>>, news: Seq<Seq<char>>, p: Seq<char>)
    requires
        with_appended(ps, news).contains(p),
    ensures
        ps.contains(p) || lowered_contains(news, p),
    decreases news.len(),
{
    if news.len() > 0 {
        let front = with_appended(ps, news.drop_last());
        let q = to_lower(news.last());
        let from_front = if front.contains(q) {
            true
        } else {
            let k = choose|k: int|
                0 <= k < front.push(q).len() && front.push(q)[k] == p;
            k < front.len()
        };
        if from_front {
            assert(front.contains(p));
            lemma_with_appended_elements(ps, news.drop_last(), p);
            if lowered_contains(news.drop_last(), p) {
                let j = choose|j: int|
                    0 <= j < lowered(news.drop_last()).len() && lowered(news.drop_last())[j] == p;
                assert(lowered(news)[j] == p);
            }
        } else {
            assert(p == q);
            assert(lowered(news)[news.len() - 1] == p);
        }
    }
}

/// Appending raw entries makes the stored set exactly the union of the old
/// set and the lower-cased images of the entries.
pub proof fn lemma_with_appended_set(ps: Seq<Seq<char>>, news: Seq<Seq<char>>)
    ensures
        with_appended(ps, news).to_set() == ps.to_set().union(lowered(news).to_set()),
{
    let a = with_appended(ps, news);
    assert forall|p: Seq<char>| #[trigger] a.to_set().contains(p) implies ps.to_set().union(
        lowered(news).to_set(),
    ).contains(p) by {
        lemma_with_appended_elements(ps, news, p);
    }
    assert forall|p: Seq<char>|
        #[trigger] ps.to_set().union(lowered(news).to_set()).contains(p) implies a.to_set()
        .contains(p) by {
        if ps.contains(p) {
            lemma_with_appended_keeps(ps, news, p);
        } else {
            let j = choose|j: int| 0 <= j < lowered(news).len() && lowered(news)[j] == p;
            lemma_with_appended_adds(ps, news, j);
        }
    }
    assert(a.to_set() =~= ps.to_set().union(lowered(news).to_set()));
}

/// A stored pattern that no entry names survives a removal.
proof fn lemma_with_removed_keeps(ps: Seq<Seq<char>>, entries: Seq<Seq<char>>, p: Seq<char>)
    requires
        ps.contains(p),
        !lowered_contains(entries, p),
    ensures
        with_removed(ps, entries).contains(p),
    decreases ps.len(),
{
    if ps.len() > 0 {
        let front = with_removed(ps.drop_last(), entries);
        if p == ps.last() {
            assert(front.push(p)[front.len() as int] == p);
        } else {
            let k = choose|k: int| 0 <= k < ps.len() && ps[k] == p;
            assert(ps.drop_last()[k] == p);
            lemma_with_removed_keeps(ps.drop_last(), entries, p);
            if !lowered_contains(entries, ps.last()) {
                let m = choose|m: int| 0 <= m < front.len() && front[m] == p;
                assert(front.push(ps.last())[m] == p);
            }
        }
    }
}

/// Every pattern present after a removal was stored before it, and no entry
/// names it.
pub proof fn lemma_with_removed_elements(ps: Seq<Seq<char>>, entries: Seq<Seq<char>>, p: Seq<char>)
    requires
        with_removed(ps, entries).contains(p),
    ensures
        ps.contains(p),
        !lowered_contains(entries, p),
    decreases ps.len(),
{
    if ps.len() > 0 {
        let front = with_removed(ps.drop_last(), entries);
        let from_front = if lowered_contains(entries, ps.last()) {
            true
        } else {
            let k = choose|k: int|
                0 <= k < front.push(ps.last()).len() && front.push(ps.last())[k] == p;
            k < front.len()
        };
        if from_front {
            assert(front.contains(p));
            lemma_with_removed_elements(ps.drop_last(), entries, p);
            let k = choose|k: int| 0 <= k < ps.drop_last().len() && ps.drop_last()[k] == p;
            assert(ps[k] == p);
        } else {
            assert(p == ps.last());
        }
    }
}

/// Removing raw entries makes the stored set exactly the old set less the
/// lower-cased images of the entries.
pub proof fn lemma_with_removed_set(ps: Seq<Seq<char>>, entries: Seq<Seq<char>>)
    ensures
        with_removed(ps, entries).to_set() == ps.to_set().difference(lowered(entries).to_set()),
{
    let a = with_removed(ps, entries);
    assert forall|p: Seq<char>| #[trigger] a.to_set().contains(p) implies ps.to_set().difference(
        lowered(entries).to_set(),
    ).contains(p) by {
        lemma_with_removed_elements(ps, entries, p);
    }
    assert forall|p: Seq<char>|
        #[trigger] ps.to_set().difference(lowered(entries).to_set()).contains(p) implies a.to_set()
        .contains(p) by {
        lemma_with_removed_keeps(ps, entries, p);
    }
    assert(a.to_set() =~= ps.to_set().difference(lowered(entries).to_set()));
}

/// A store of bot user-agent patterns and the matcher compiled from them.
pub struct Bots {
    user_agent_patterns: Vec<Vec<char>>,
    user_agents_regex: regex::RegexSet,
}

impl View for Bots {
    type V = Set<Seq<char>>;

    /// The store, seen as the set of patterns it holds.
    open spec fn view(&self) -> Set<Seq<char>> {
        self.pattern_seq().to_set()
    }
}

impl Bots {
    /// The stored pattern sequence, in order of first insertion.
    pub closed spec fn pattern_seq(self) -> Seq<Seq<char>> {
        self.user_agent_patterns.deep_view()
    }

    /// The compiled matcher holds exactly the stored patterns.
    #[verifier::type_invariant]
    spec fn wf(self) -> bool {
        set_patterns(self.user_agents_regex) == self.user_agent_patterns.deep_view()
    }

    /// Compiles the matcher for a pattern sequence the compiler accepts; the
    /// empty sequence gets the never-matching empty set.
    fn build_matcher(pats: &Vec<Vec<char>>) -> (r: regex::RegexSet)
        requires
            buildable(pats.deep_view()),
        ensures
            set_patterns(r) == pats.deep_view(),
    {
        if pats.len() == 0 {
            let rs = empty_set();
            proof {
                assert(pats.deep_view() =~= Seq::<Seq<char>>::empty());
            }
            rs
        } else {
            match compile_set(pats) {
                Some(rs) => rs,
                None => {
                    proof {
                        assert(false);
                    }
                    empty_set()
                },
            }
        }
    }

    /// Tests whether a pattern sequence can back a store.
    fn probe(pats: &Vec<Vec<char>>) -> (ok: bool)
        ensures
            ok == buildable(pats.deep_view()),
    {
        if pats.len() == 0 {
            proof {
                assert(pats.deep_view() =~= Seq::<Seq<char>>::empty());
            }
            true
        } else {
            compile_set(pats).is_some()
        }
    }

    /// The stored patterns extended by the lower-cased new entries, without
    /// duplicates.
    fn appended_patterns(pats: &Vec<Vec<char>>, bots: &[&str]) -> (r: Vec<Vec<char>>)
        ensures
            r.deep_view() == with_appended(pats.deep_view(), bots.deep_view()),
    {
        let mut out: Vec<Vec<char>> = Vec::new();
        let mut i: usize = 0;
        while i < pats.len()
            invariant
                i <= pats.len(),
                out.deep_view() =~~= pats.deep_view().subrange(0, i as int),
            decreases pats.len() - i,
        {
            let ghost old_out = out.deep_view();
            let c = clone_chars(&pats[i]);
            proof {
                assert(c.deep_view() =~= c@);
                assert(pats@[i as int].deep_view() =~= pats@[i as int]@);
                assert(c.deep_view() == pats.deep_view()[i as int]);
            }
            out.push(c);
            proof {
                assert(out.deep_view() =~~= old_out.push(pats.deep_view()[i as int]));
                assert(out.deep_view() =~~= pats.deep_view().subrange(0, i + 1));
            }
            i += 1;
        }
        proof {
            assert(pats.deep_view().subrange(0, pats.deep_view().len() as int) =~~= pats.deep_view());
            assert(out.deep_view() =~~= with_appended(pats.deep_view(), bots.deep_view().subrange(0, 0)));
        }
        let mut j: usize = 0;
        while j < bots.len()
            invariant
                j <= bots.len(),
                bots.deep_view().len() == bots@.len(),
                out.deep_view() =~~= with_appended(
                    pats.deep_view(),
                    bots.deep_view().subrange(0, j as int),
                ),
            decreases bots.len() - j,
        {
            proof {
                assert(bots.deep_view().subrange(0, j + 1).drop_last() =~= bots.deep_view().subrange(
                    0,
                    j as int,
                ));
                assert(bots.deep_view().subrange(0, j + 1).last() == bots.deep_view()[j as int]);
                assert(bots.deep_view()[j as int] == bots@[j as int]@);
            }
            let cs = str_to_chars(bots[j]);
            let low = lower_chars(&cs);
            proof {
                assert(low.deep_view() =~= low@);
            }
            if !contains_chars(&out, &low) {
                let ghost old_out = out.deep_view();
                out.push(low);
                proof {
                    assert(out.deep_view() =~~= old_out.push(to_lower(bots@[j as int]@)));
                }
            }
            j += 1;
        }
        proof {
            assert(bots.deep_view().subrange(0, bots.deep_view().len() as int) =~~= bots.deep_view());
        }
        out
    }

    /// The lower-cased images of the given entries, in order.
    fn lowered_list(entries: &[&str]) -> (r: Vec<Vec<char>>)
        ensures
            r.deep_view() == lowered(entries.deep_view()),
    {
        let mut out: Vec<Vec<char>> = Vec::new();
        let mut i: usize = 0;
        while i < entries.len()
            invariant
                i <= entries.len(),
                entries.deep_view().len() == entries@.len(),
                out.deep_view() =~~= lowered(entries.deep_view().subrange(0, i as int)),
            decreases entries.len() - i,
        {
            let cs = str_to_chars(entries[i]);
            let low = lower_chars(&cs);
            proof {
                assert(low.deep_view() =~= low@);
                assert(entries.deep_view()[i as int] == entries@[i as int]@);
            }
            let ghost old_out = out.deep_view();
            out.push(low);
            proof {
                assert(out.deep_view() =~~= old_out.push(to_lower(entries.deep_view()[i as int])));
                assert(out.deep_view() =~~= lowered(entries.deep_view().subrange(0, i + 1)));
            }
            i += 1;
        }
        proof {
            assert(entries.deep_view().subrange(0, entries.deep_view().len() as int)
                =~~= entries.deep_view());
        }
        out
    }

    /// The stored patterns with the lower-cased images of the given entries
    /// removed.
    fn removed_patterns(pats: &Vec<Vec<char>>, entries: &[&str]) -> (r: Vec<Vec<char>>)
        ensures
            r.deep_view() == with_removed(pats.deep_view(), entries.deep_view()),
    {
        let rems = Self::lowered_list(entries);
        let mut out: Vec<Vec<char>> = Vec::new();
        let mut i: usize = 0;
        while i < pats.len()
            invariant
                i <= pats.len(),
                rems.deep_view() == lowered(entries.deep_view()),
                out.deep_view() =~~= with_removed(
                    pats.deep_view().subrange(0, i as int),
                    entries.deep_view(),
                ),
            decreases pats.len() - i,
        {
            proof {
                assert(pats.deep_view().subrange(0, i + 1).drop_last() =~= pats.deep_view().subrange(
                    0,
                    i as int,
                ));
                assert(pats.deep_view().subrange(0, i + 1).last() == pats.deep_view()[i as int]);
                assert(pats@[i as int].deep_view() =~= pats@[i as int]@);
            }
            let p = clone_chars(&pats[i]);
            proof {
                assert(p.deep_view() =~= p@);
            }
            if !contains_chars(&rems, &p) {
                let ghost old_out = out.deep_view();
                out.push(p);
                proof {
                    assert(out.deep_view() =~~= old_out.push(pats.deep_view()[i as int]));
                }
            }
            i += 1;
        }
        proof {
            assert(pats.deep_view().subrange(0, pats.deep_view().len() as int)
                =~~= pats.deep_view());
        }
        out
    }

    /// Constructs a store from newline-delimited pattern entries: lines are
    /// lower-cased, blank lines are discarded, duplicates collapse, and the
    /// matcher is compiled from the result. The caller owes a pattern list
    /// the compiler accepts; `try_new` checks that and never fails.
    pub fn new(bot_entries: &str) -> (r: Bots)
        requires
            buildable(patterns_of(bot_entries@)),
        ensures
            r.pattern_seq() == patterns_of(bot_entries@),
            r@ == patterns_of(bot_entries@).to_set(),
    {
        let pats = parse_patterns(bot_entries);
        let rs = Self::build_matcher(&pats);
        Bots { user_agent_patterns: pats, user_agents_regex: rs }
    }

    /// Constructs a store from newline-delimited pattern entries, or returns
    /// `None` exactly when the compiler rejects the parsed pattern list.
    pub fn try_new(bot_entries: &str) -> (r: Option<Bots>)
        ensures
            r is Some <==> buildable(patterns_of(bot_entries@)),
            r matches Some(b) ==> b.pattern_seq() == patterns_of(bot_entries@),
            r matches Some(b) ==> b@ == patterns_of(bot_entries@).to_set(),
    {
        let pats = parse_patterns(bot_entries);
        if Self::probe(&pats) {
            Some(Self::new(bot_entries))
        } else {
            None
        }
    }

    /// Returns true exactly when some stored pattern matches the lower-cased
    /// user agent. Total: every input, the empty string included, yields a
    /// boolean, and an empty store matches nothing.
    pub fn is_bot(&self, user_agent: &str) -> (r: bool)
        ensures
            r == spec_is_bot(self.pattern_seq(), user_agent@),
            r == set_is_bot(self@, user_agent@),
    {
        proof {
            use_type_invariant(&*self);
            lemma_is_bot_seq_set(self.pattern_seq(), user_agent@);
        }
        let cs = str_to_chars(user_agent);
        let low = lower_chars(&cs);
        set_is_match(&self.user_agents_regex, &low)
    }

    /// Appends raw pattern entries: each is lower-cased, duplicates are
    /// ignored, and the matcher is rebuilt from the union. The caller owes a
    /// resulting pattern list the compiler accepts; `try_append` checks that
    /// and never fails.
    pub fn append(&mut self, bots: &[&str])
        requires
            buildable(with_appended(old(self).pattern_seq(), bots.deep_view())),
        ensures
            final(self).pattern_seq() == with_appended(old(self).pattern_seq(), bots.deep_view()),
            final(self)@ == old(self)@.union(lowered(bots.deep_view()).to_set()),
    {
        proof {
            lemma_with_appended_set(self.pattern_seq(), bots.deep_view());
        }
        let pats = Self::appended_patterns(&self.user_agent_patterns, bots);
        let rs = Self::build_matcher(&pats);
        *self = Bots { user_agent_patterns: pats, user_agents_regex: rs };
    }

    /// Appends raw pattern entries if the compiler accepts the resulting
    /// pattern list, reporting whether it did; on `false` the store is
    /// unchanged.
    pub fn try_append(&mut self, bots: &[&str]) -> (ok: bool)
        ensures
            ok == buildable(with_appended(old(self).pattern_seq(), bots.deep_view())),
            ok ==> final(self).pattern_seq() == with_appended(
                old(self).pattern_seq(),
                bots.deep_view(),
            ),
            ok ==> final(self)@ == old(self)@.union(lowered(bots.deep_view()).to_set()),
            !ok ==> final(self).pattern_seq() == old(self).pattern_seq(),
    {
        let cand = Self::appended_patterns(&self.user_agent_patterns, bots);
        if Self::probe(&cand) {
            self.append(bots);
            true
        } else {
            false
        }
    }

    /// Removes raw pattern entries: a stored pattern is dropped exactly when
    /// it equals a lower-cased entry; entries not present are silently
    /// ignored, and the matcher is rebuilt from the remainder. The caller
    /// owes a resulting pattern list the compiler accepts; `try_remove`
    /// checks that and never fails.
    pub fn remove(&mut self, bots: &[&str])
        requires
            buildable(with_removed(old(self).pattern_seq(), bots.deep_view())),
        ensures
            final(self).pattern_seq() == with_removed(old(self).pattern_seq(), bots.deep_view()),
            final(self)@ == old(self)@.difference(lowered(bots.deep_view()).to_set()),
    {
        proof {
            lemma_with_removed_set(self.pattern_seq(), bots.deep_view());
        }
        let pats = Self::removed_patterns(&self.user_agent_patterns, bots);
        let rs = Self::build_matcher(&pats);
        *self = Bots { user_agent_patterns: pats, user_agents_regex: rs };
    }

    /// Removes raw pattern entries if the compiler accepts the resulting
    /// pattern list, reporting whether it did; on `false` the store is
    /// unchanged.
    pub fn try_remove(&mut self, bots: &[&str]) -> (ok: bool)
        ensures
            ok == buildable(with_removed(old(self).pattern_seq(), bots.deep_view())),
            ok ==> final(self).pattern_seq() == with_removed(
                old(self).pattern_seq(),
                bots.deep_view(),
            ),
            ok ==> final(self)@ == old(self)@.difference(lowered(bots.deep_view()).to_set()),
            !ok ==> final(self).pattern_seq() == old(self).pattern_seq(),
    {
        let cand = Self::removed_patterns(&self.user_agent_patterns, bots);
        if Self::probe(&cand) {
            self.remove(bots);
            true
        } else {
            false
        }
    }
}

impl Default for Bots {
    /// Constructs a store from the built-in default pattern list. Were the
    /// compiler ever to reject that list, the store would fall back to the
    /// empty pattern set, equivalent to `Bots::new("")`.
    fn default() -> (r: Bots)
        ensures
            r.pattern_seq() == (if buildable(patterns_of(DEFAULT_BOT_PATTERNS@)) {
                patterns_of(DEFAULT_BOT_PATTERNS@)
            } else {
                Seq::<Seq<char>>::empty()
            }),
    {
        match Bots::try_new(DEFAULT_BOT_PATTERNS) {
            Some(b) => b,
            None => {
                let pats: Vec<Vec<char>> = Vec::new();
                let rs = empty_set();
                proof {
                    assert(pats.deep_view() =~~= Seq::<Seq<char>>::empty());
                }
                Bots { user_agent_patterns: pats, user_agents_regex: rs }
            },
        }
    }
}

} // verus!
