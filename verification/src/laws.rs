//! The store's algebraic laws, proved over the same spec functions that the
//! public operations' contracts use.

use vstd::prelude::*;

use crate::matcher::regex_match;
use crate::parse::{clean_lines, distinct_seqs, lines_of, patterns_of, split_lines, strip_all};
use crate::store::{
    lemma_with_appended_adds, lemma_with_appended_keeps, lemma_with_removed_elements, lowered,
    lowered_contains, spec_is_bot, with_appended, with_removed,
};
use crate::text::{lemma_lower_case_insensitive, lower_fixed, to_lower, to_upper};

verus! {

/// Classification is case-insensitive: a store answers the same for a user
/// agent, its ASCII upper-casing, and its ASCII lower-casing.
pub proof fn lemma_is_bot_case_insensitive(patterns: Seq<Seq<char>>, ua: Seq<char>)
    ensures
        spec_is_bot(patterns, to_upper(ua)) == spec_is_bot(patterns, ua),
        spec_is_bot(patterns, to_lower(ua)) == spec_is_bot(patterns, ua),
{
    lemma_lower_case_insensitive(ua);
}

/// An empty pattern blob denotes the empty store, and an empty store
/// classifies no string as a bot, the empty string included.
pub proof fn lemma_empty_store_rejects_all(ua: Seq<char>)
    ensures
        patterns_of(Seq::<char>::empty()) == Seq::<Seq<char>>::empty(),
        !spec_is_bot(Seq::<Seq<char>>::empty(), ua),
{
    let e = Seq::<char>::empty();
    assert(to_lower(e) =~= e);
    assert(split_lines(e) == seq![Seq::<char>::empty()]);
    assert(seq![Seq::<char>::empty()].drop_last() =~= Seq::<Seq<char>>::empty());
    assert(strip_all(Seq::<Seq<char>>::empty()) =~= Seq::<Seq<char>>::empty());
    assert(lines_of(e) =~= seq![Seq::<char>::empty()]);
    assert(clean_lines(Seq::<Seq<char>>::empty()) == Seq::<Seq<char>>::empty());
    assert(crate::text::is_blank(Seq::<char>::empty()));
    assert(clean_lines(lines_of(e)) =~= Seq::<Seq<char>>::empty());
}

/// Appending entries whose lower-cased images are all present already is a
/// no-op.
proof fn lemma_with_appended_noop(ps: Seq<Seq<char>>, news: Seq<Seq<char>>)
    requires
        forall|j: int| 0 <= j < news.len() ==> ps.contains(to_lower(#[trigger] news[j])),
    ensures
        with_appended(ps, news) == ps,
    decreases news.len(),
{
    if news.len() > 0 {
        assert(forall|j: int|
            0 <= j < news.drop_last().len() ==> news.drop_last()[j] == news[j]);
        lemma_with_appended_noop(ps, news.drop_last());
    }
}

/// Appending the same entries twice yields the same pattern sequence as
/// appending them once, so the queryable behavior is the same.
pub proof fn lemma_append_idempotent(ps: Seq<Seq<char>>, news: Seq<Seq<char>>)
    ensures
        with_appended(with_appended(ps, news), news) == with_appended(ps, news),
        forall|ua: Seq<char>|
            spec_is_bot(with_appended(with_appended(ps, news), news), ua) == #[trigger] spec_is_bot(
                with_appended(ps, news),
                ua,
            ),
{
    let a = with_appended(ps, news);
    assert forall|j: int| 0 <= j < news.len() implies a.contains(to_lower(#[trigger] news[j])) by {
        lemma_with_appended_adds(ps, news, j);
    }
    lemma_with_appended_noop(a, news);
}

/// Removing entries none of which names a stored pattern is a no-op, so
/// classification is unchanged.
pub proof fn lemma_remove_absent_noop(ps: Seq<Seq<char>>, entries: Seq<Seq<char>>)
    requires
        forall|i: int| 0 <= i < ps.len() ==> !lowered_contains(entries, #[trigger] ps[i]),
    ensures
        with_removed(ps, entries) == ps,
        forall|ua: Seq<char>|
            spec_is_bot(with_removed(ps, entries), ua) == #[trigger] spec_is_bot(ps, ua),
    decreases ps.len(),
{
    if ps.len() > 0 {
        assert(forall|i: int|
            0 <= i < ps.drop_last().len() ==> ps.drop_last()[i] == ps[i]);
        lemma_remove_absent_noop(ps.drop_last(), entries);
        assert(with_removed(ps, entries) =~= ps);
    }
}

/// Removing entries that cover every appended entry, and none of the
/// previously stored patterns, undoes the append exactly.
proof fn lemma_remove_appended(
    ps: Seq<Seq<char>>,
    news: Seq<Seq<char>>,
    entries: Seq<Seq<char>>,
)
    requires
        forall|j: int| 0 <= j < news.len() ==> lowered_contains(
            entries,
            to_lower(#[trigger] news[j]),
        ),
        forall|i: int| 0 <= i < ps.len() ==> !lowered_contains(entries, #[trigger] ps[i]),
    ensures
        with_removed(with_appended(ps, news), entries) == ps,
    decreases news.len(),
{
    if news.len() == 0 {
        lemma_remove_absent_noop(ps, entries);
    } else {
        assert(forall|j: int|
            0 <= j < news.drop_last().len() ==> news.drop_last()[j] == news[j]);
        lemma_remove_appended(ps, news.drop_last(), entries);
        let front = with_appended(ps, news.drop_last());
        let p = to_lower(news.last());
        if !front.contains(p) {
            assert(front.push(p).drop_last() =~= front);
            assert(front.push(p).last() == p);
            assert(lowered_contains(entries, p));
        }
    }
}

/// Appending a list of fresh entries and then removing the same list
/// restores the pattern sequence, and with it every classification result.
/// Freshness means no stored pattern equals the lower-cased image of an
/// entry, the condition under which the removal cannot take away a pattern
/// that was installed before the append.
pub proof fn lemma_append_remove_inverse(ps: Seq<Seq<char>>, news: Seq<Seq<char>>)
    requires
        forall|i: int| 0 <= i < ps.len() ==> !lowered_contains(news, #[trigger] ps[i]),
    ensures
        with_removed(with_appended(ps, news), news) == ps,
        forall|ua: Seq<char>|
            spec_is_bot(with_removed(with_appended(ps, news), news), ua) == #[trigger] spec_is_bot(
                ps,
                ua,
            ),
{
    assert forall|j: int|
        0 <= j < news.len() implies lowered_contains(news, to_lower(#[trigger] news[j])) by {
        assert(lowered(news)[j] == to_lower(news[j]));
    }
    lemma_remove_appended(ps, news, news);
}

/// Appending preserves the store's data-model invariant: the patterns stay
/// pairwise distinct and lower-cased.
pub proof fn lemma_with_appended_wellformed(ps: Seq<Seq<char>>, news: Seq<Seq<char>>)
    requires
        distinct_seqs(ps),
        forall|k: int| 0 <= k < ps.len() ==> lower_fixed(#[trigger] ps[k]),
    ensures
        distinct_seqs(with_appended(ps, news)),
        forall|k: int|
            0 <= k < with_appended(ps, news).len() ==> lower_fixed(
                #[trigger] with_appended(ps, news)[k],
            ),
    decreases news.len(),
{
    if news.len() > 0 {
        lemma_with_appended_wellformed(ps, news.drop_last());
        let front = with_appended(ps, news.drop_last());
        let q = to_lower(news.last());
        if !front.contains(q) {
            crate::text::lemma_to_lower_fixed(news.last());
            assert forall|i: int, j: int|
                0 <= i < j < front.push(q).len() implies front.push(q)[i] != front.push(q)[j] by {
                if j == front.len() {
                    assert(front.push(q)[i] == front[i]);
                    assert(!front.contains(front.push(q)[j]));
                }
            }
            assert forall|k: int|
                0 <= k < front.push(q).len() implies lower_fixed(#[trigger] front.push(q)[k]) by {
                if k < front.len() {
                    assert(front.push(q)[k] == front[k]);
                }
            }
        }
    }
}

/// Removal preserves the store's data-model invariant: the patterns stay
/// pairwise distinct and lower-cased.
pub proof fn lemma_with_removed_wellformed(ps: Seq<Seq<char>>, entries: Seq<Seq<char>>)
    requires
        distinct_seqs(ps),
        forall|k: int| 0 <= k < ps.len() ==> lower_fixed(#[trigger] ps[k]),
    ensures
        distinct_seqs(with_removed(ps, entries)),
        forall|k: int|
            0 <= k < with_removed(ps, entries).len() ==> lower_fixed(
                #[trigger] with_removed(ps, entries)[k],
            ),
    decreases ps.len(),
{
    if ps.len() > 0 {
        assert(forall|i: int|
            0 <= i < ps.drop_last().len() ==> ps.drop_last()[i] == ps[i]);
        lemma_with_removed_wellformed(ps.drop_last(), entries);
        let front = with_removed(ps.drop_last(), entries);
        if !lowered_contains(entries, ps.last()) {
            assert forall|i: int, j: int|
                0 <= i < j < front.push(ps.last()).len() implies front.push(ps.last())[i]
                != front.push(ps.last())[j] by {
                if j == front.len() {
                    assert(front.push(ps.last())[i] == front[i]);
                    if front[i] == ps.last() {
                        lemma_with_removed_elements(ps.drop_last(), entries, ps.last());
                    }
                }
            }
            assert forall|k: int|
                0 <= k < front.push(ps.last()).len() implies lower_fixed(
                #[trigger] front.push(ps.last())[k],
            ) by {
                if k < front.len() {
                    assert(front.push(ps.last())[k] == front[k]);
                }
            }
        }
    }
}

/// Appending patterns never un-classifies a bot: every user agent that
/// matched before an append still matches after it.
pub proof fn lemma_append_monotone(ps: Seq<Seq<char>>, news: Seq<Seq<char>>, ua: Seq<char>)
    ensures
        spec_is_bot(ps, ua) ==> spec_is_bot(with_appended(ps, news), ua),
{
    if spec_is_bot(ps, ua) {
        let i = choose|i: int| 0 <= i < ps.len() && regex_match(ps[i], to_lower(ua));
        lemma_with_appended_keeps(ps, news, ps[i]);
        let a = with_appended(ps, news);
        let k = choose|k: int| 0 <= k < a.len() && a[k] == ps[i];
        assert(regex_match(a[k], to_lower(ua)));
    }
}

} // verus!
