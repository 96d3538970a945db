//! Parsing a newline-delimited pattern blob into the de-duplicated sequence
//! of non-blank, lower-cased pattern lines.

use vstd::prelude::*;

use crate::text::{
    blank_chars, clone_chars, is_blank, lower_chars, lower_fixed, str_to_chars, strip_cr,
    to_lower,
};

verus! {

/// The segments of `s` between newline characters, in order. A trailing
/// newline yields a final empty segment, and the split of the empty sequence
/// is one empty segment; blank segments are discarded later, so both
/// conventions are harmless.
pub open spec fn split_lines(s: Seq<char>) -> Seq<Seq<char>>
    decreases s.len(),
{
    if s.len() == 0 {
        seq![Seq::<char>::empty()]
    } else if s[0] == '\n' {
        seq![Seq::<char>::empty()] + split_lines(s.drop_first())
    } else {
        let rest = split_lines(s.drop_first());
        seq![seq![s[0]] + rest[0]] + rest.drop_first()
    }
}

/// The split of any sequence has at least one segment.
pub proof fn lemma_split_lines_len(s: Seq<char>)
    ensures
        split_lines(s).len() >= 1,
    decreases s.len(),
{
    if s.len() > 0 {
        lemma_split_lines_len(s.drop_first());
    }
}

/// Extending the input by one character extends the split: a newline starts a
/// new empty segment, any other character is appended to the last segment.
pub proof fn lemma_split_lines_snoc(s: Seq<char>, c: char)
    ensures
        c == '\n' ==> split_lines(s.push(c)) == split_lines(s).push(Seq::<char>::empty()),
        c != '\n' ==> split_lines(s.push(c)) == split_lines(s).drop_last().push(
            split_lines(s).last().push(c),
        ),
    decreases s.len(),
{
    lemma_split_lines_len(s);
    let t = s.push(c);
    if s.len() == 0 {
        assert(t.len() == 1);
        assert(t[0] == c);
        assert(s =~= Seq::<char>::empty());
        assert(split_lines(Seq::<char>::empty()) == seq![Seq::<char>::empty()]);
        if c == '\n' {
            assert(t.drop_first() =~= Seq::<char>::empty());
            assert(split_lines(t) =~= split_lines(s).push(Seq::<char>::empty()));
        } else {
            assert(t.drop_first() =~= Seq::<char>::empty());
            assert(seq![t[0]] + split_lines(t.drop_first())[0] =~= split_lines(s).last().push(c));
            assert(split_lines(t) =~= split_lines(s).drop_last().push(
                split_lines(s).last().push(c),
            ));
        }
    } else {
        lemma_split_lines_snoc(s.drop_first(), c);
        lemma_split_lines_len(s.drop_first());
        assert(t.drop_first() =~= s.drop_first().push(c));
        let rest = split_lines(s.drop_first());
        let rest2 = split_lines(s.drop_first().push(c));
        if s[0] == '\n' {
            assert(split_lines(s) == seq![Seq::<char>::empty()] + rest);
            assert(split_lines(t) == seq![Seq::<char>::empty()] + rest2);
            if c == '\n' {
                assert(split_lines(t) =~= split_lines(s).push(Seq::<char>::empty()));
            } else {
                assert(split_lines(s).last() == rest.last());
                assert(split_lines(t) =~= split_lines(s).drop_last().push(
                    split_lines(s).last().push(c),
                ));
            }
        } else {
            assert(split_lines(s) == seq![seq![s[0]] + rest[0]] + rest.drop_first());
            assert(split_lines(t) == seq![seq![t[0]] + rest2[0]] + rest2.drop_first());
            if c == '\n' {
                assert(rest2 == rest.push(Seq::<char>::empty()));
                assert(rest2[0] == rest[0]);
                assert(split_lines(t) =~= split_lines(s).push(Seq::<char>::empty()));
            } else {
                assert(rest2 == rest.drop_last().push(rest.last().push(c)));
                if rest.len() == 1 {
                    assert(rest2[0] == rest[0].push(c));
                    assert(split_lines(t) =~= split_lines(s).drop_last().push(
                        split_lines(s).last().push(c),
                    ));
                } else {
                    assert(rest2[0] == rest[0]);
                    assert(split_lines(t) =~= split_lines(s).drop_last().push(
                        split_lines(s).last().push(c),
                    ));
                }
            }
        }
    }
}

/// Each segment with one trailing carriage return removed.
pub open spec fn strip_all(ls: Seq<Seq<char>>) -> Seq<Seq<char>> {
    ls.map_values(|l: Seq<char>| strip_cr(l))
}

/// The lines denoted by a blob, as `str::lines` yields them: segments
/// between newlines, where a segment terminated by a newline loses one
/// trailing carriage return (the `\r\n` line ending) and the final,
/// unterminated segment keeps its characters as they stand, a bare final
/// carriage return included. A trailing newline yields a final empty
/// segment, as does the empty blob; blank segments are discarded later, so
/// that convenience is harmless.
pub open spec fn lines_of(s: Seq<char>) -> Seq<Seq<char>> {
    let raw = split_lines(s);
    strip_all(raw.drop_last()).push(raw.last())
}

/// Extending the input by one character extends its lines: a newline closes
/// the last segment, stripping its trailing carriage return, and opens an
/// empty one; any other character is appended to the open segment.
pub proof fn lemma_lines_of_snoc(s: Seq<char>, c: char)
    ensures
        c == '\n' ==> lines_of(s.push(c)) == lines_of(s).drop_last().push(
            strip_cr(lines_of(s).last()),
        ).push(Seq::<char>::empty()),
        c != '\n' ==> lines_of(s.push(c)) == lines_of(s).drop_last().push(
            lines_of(s).last().push(c),
        ),
{
    lemma_split_lines_len(s);
    lemma_split_lines_snoc(s, c);
    let raw = split_lines(s);
    let raw2 = split_lines(s.push(c));
    assert(lines_of(s).drop_last() =~= strip_all(raw.drop_last()));
    assert(lines_of(s).last() == raw.last());
    if c == '\n' {
        assert(raw2 == raw.push(Seq::<char>::empty()));
        assert(raw2.drop_last() =~= raw);
        assert(strip_all(raw) =~= strip_all(raw.drop_last()).push(strip_cr(raw.last())));
        assert(lines_of(s.push(c)) =~= lines_of(s).drop_last().push(
            strip_cr(lines_of(s).last()),
        ).push(Seq::<char>::empty()));
    } else {
        assert(raw2 == raw.drop_last().push(raw.last().push(c)));
        assert(raw2.drop_last() =~= raw.drop_last());
        assert(raw2.last() == raw.last().push(c));
        assert(lines_of(s.push(c)) =~= lines_of(s).drop_last().push(
            lines_of(s).last().push(c),
        ));
    }
}

/// The lines kept from a sequence of finished lines: blank lines are
/// discarded, and a line equal to one already kept is discarded, preserving
/// first occurrences in order.
pub open spec fn clean_lines(ls: Seq<Seq<char>>) -> Seq<Seq<char>>
    decreases ls.len(),
{
    if ls.len() == 0 {
        Seq::<Seq<char>>::empty()
    } else {
        let front = clean_lines(ls.drop_last());
        let l = ls.last();
        if is_blank(l) || front.contains(l) {
            front
        } else {
            front.push(l)
        }
    }
}

/// The pattern sequence denoted by a pattern blob: the blob is lower-cased,
/// split into lines, and the non-blank lines are kept once each, in order of
/// first occurrence.
pub open spec fn patterns_of(text: Seq<char>) -> Seq<Seq<char>> {
    clean_lines(lines_of(to_lower(text)))
}

/// A sequence of patterns without duplicates.
pub open spec fn distinct_seqs(ls: Seq<Seq<char>>) -> bool {
    forall|i: int, j: int| 0 <= i < j < ls.len() ==> ls[i] != ls[j]
}

/// Every line of a lower-fixed sequence is lower-fixed.
pub proof fn lemma_split_lines_fixed(s: Seq<char>)
    requires
        lower_fixed(s),
    ensures
        forall|k: int|
            0 <= k < split_lines(s).len() ==> lower_fixed(#[trigger] split_lines(s)[k]),
    decreases s.len(),
{
    if s.len() == 0 {
    } else {
        assert(lower_fixed(s.drop_first()));
        lemma_split_lines_fixed(s.drop_first());
        lemma_split_lines_len(s.drop_first());
        let rest = split_lines(s.drop_first());
        if s[0] == '\n' {
            assert forall|k: int|
                0 <= k < split_lines(s).len() implies lower_fixed(
                #[trigger] split_lines(s)[k],
            ) by {
                if k > 0 {
                    assert(split_lines(s)[k] == rest[k - 1]);
                }
            }
        } else {
            assert forall|k: int|
                0 <= k < split_lines(s).len() implies lower_fixed(
                #[trigger] split_lines(s)[k],
            ) by {
                if k == 0 {
                    let first = seq![s[0]] + rest[0];
                    assert(lower_fixed(rest[0]));
                    assert forall|i: int|
                        0 <= i < first.len() implies crate::text::to_lower_char(
                        #[trigger] first[i],
                    ) == first[i] by {
                        if i == 0 {
                            assert(first[0] == s[0]);
                        } else {
                            assert(first[i] == rest[0][i - 1]);
                        }
                    }
                } else {
                    assert(split_lines(s)[k] == rest.drop_first()[k - 1]);
                    assert(rest.drop_first()[k - 1] == rest[k]);
                }
            }
        }
    }
}

/// A stripped line is lower-fixed when the line is.
pub proof fn lemma_strip_cr_fixed(l: Seq<char>)
    requires
        lower_fixed(l),
    ensures
        lower_fixed(strip_cr(l)),
{
}

/// The kept lines are pairwise distinct.
pub proof fn lemma_clean_lines_distinct(ls: Seq<Seq<char>>)
    ensures
        distinct_seqs(clean_lines(ls)),
    decreases ls.len(),
{
    if ls.len() > 0 {
        lemma_clean_lines_distinct(ls.drop_last());
        let front = clean_lines(ls.drop_last());
        let l = ls.last();
        if !is_blank(l) && !front.contains(l) {
            assert forall|i: int, j: int|
                0 <= i < j < front.push(l).len() implies front.push(l)[i] != front.push(l)[j] by {
                if j == front.len() {
                    assert(!front.contains(front.push(l)[j]));
                    assert(front.push(l)[i] == front[i]);
                }
            }
        }
    }
}

/// Every kept line is one of the input lines.
pub proof fn lemma_clean_lines_elements(ls: Seq<Seq<char>>)
    ensures
        forall|k: int|
            0 <= k < clean_lines(ls).len() ==> exists|m: int|
                0 <= m < ls.len() && #[trigger] clean_lines(ls)[k] == ls[m],
    decreases ls.len(),
{
    if ls.len() > 0 {
        lemma_clean_lines_elements(ls.drop_last());
        let front = clean_lines(ls.drop_last());
        assert forall|k: int|
            0 <= k < clean_lines(ls).len() implies exists|m: int|
                0 <= m < ls.len() && #[trigger] clean_lines(ls)[k] == ls[m] by {
            if k < front.len() {
                let m = choose|m: int|
                    0 <= m < ls.drop_last().len() && front[k] == ls.drop_last()[m];
                assert(ls.drop_last()[m] == ls[m]);
                assert(clean_lines(ls)[k] == ls[m]);
            } else {
                let m = ls.len() - 1;
                assert(clean_lines(ls)[k] == ls[m]);
            }
        }
    }
}

/// The patterns parsed from any blob are pairwise distinct and lower-cased:
/// the store built from a blob is a set of lower-case patterns.
pub proof fn lemma_patterns_of_wellformed(text: Seq<char>)
    ensures
        distinct_seqs(patterns_of(text)),
        forall|k: int|
            0 <= k < patterns_of(text).len() ==> lower_fixed(#[trigger] patterns_of(text)[k]),
{
    let low = to_lower(text);
    let raw = split_lines(low);
    let ls = lines_of(low);
    crate::text::lemma_to_lower_fixed(text);
    lemma_split_lines_fixed(low);
    lemma_split_lines_len(low);
    lemma_clean_lines_distinct(ls);
    lemma_clean_lines_elements(ls);
    assert forall|k: int| 0 <= k < ls.len() implies lower_fixed(#[trigger] ls[k]) by {
        if k < ls.len() - 1 {
            assert(ls[k] == strip_cr(raw[k]));
            lemma_strip_cr_fixed(raw[k]);
        } else {
            assert(ls[k] == raw.last());
        }
    }
    assert forall|k: int|
        0 <= k < patterns_of(text).len() implies lower_fixed(
        #[trigger] patterns_of(text)[k],
    ) by {
        let m = choose|m: int| 0 <= m < ls.len() && clean_lines(ls)[k] == ls[m];
    }
}

/// Equality test for two character vectors.
pub fn eq_chars(a: &Vec<char>, b: &Vec<char>) -> (r: bool)
    ensures
        r == (a@ == b@),
{
    if a.len() != b.len() {
        proof {
            assert(a@ != b@);
        }
        return false;
    }
    let mut i: usize = 0;
    while i < a.len()
        invariant
            i <= a.len(),
            a@.len() == b@.len(),
            forall|k: int| 0 <= k < i ==> a@[k] == b@[k],
        decreases a.len() - i,
    {
        if a[i] != b[i] {
            proof {
                assert(a@ != b@);
            }
            return false;
        }
        i += 1;
    }
    proof {
        assert(a@ =~= b@);
    }
    true
}

/// Membership test for a character vector among a vector of them.
pub fn contains_chars(v: &Vec<Vec<char>>, x: &Vec<char>) -> (r: bool)
    ensures
        r == v.deep_view().contains(x@),
{
    let mut i: usize = 0;
    while i < v.len()
        invariant
            i <= v.len(),
            forall|k: int| 0 <= k < i ==> v.deep_view()[k] != x@,
        decreases v.len() - i,
    {
        let hit = eq_chars(&v[i], x);
        proof {
            assert(v@[i as int].deep_view() =~= v@[i as int]@);
            assert(v.deep_view()[i as int] == v@[i as int].deep_view());
        }
        if hit {
            return true;
        }
        i += 1;
    }
    false
}

/// A copy of a line with one trailing carriage return removed.
pub fn strip_cr_vec(v: &Vec<char>) -> (r: Vec<char>)
    ensures
        r@ == strip_cr(v@),
{
    let mut out: Vec<char> = Vec::new();
    let n = if v.len() > 0 && v[v.len() - 1] == '\r' {
        v.len() - 1
    } else {
        v.len()
    };
    let mut i: usize = 0;
    while i < n
        invariant
            i <= n <= v.len(),
            out@ =~= v@.subrange(0, i as int),
        decreases n - i,
    {
        out.push(v[i]);
        proof {
            assert(out@ =~= v@.subrange(0, i + 1));
        }
        i += 1;
    }
    proof {
        assert(out@ =~= strip_cr(v@));
    }
    out
}

/// Splits a character vector into its lines: a newline closes the open
/// segment, whose trailing carriage return is stripped; the final segment is
/// kept as it stands.
pub fn lines_vec(s: &Vec<char>) -> (r: Vec<Vec<char>>)
    ensures
        r.deep_view() == lines_of(s@),
{
    proof {
        assert(split_lines(Seq::<char>::empty()) == seq![Seq::<char>::empty()]);
        assert(seq![Seq::<char>::empty()].drop_last() =~= Seq::<Seq<char>>::empty());
        assert(strip_all(Seq::<Seq<char>>::empty()) =~= Seq::<Seq<char>>::empty());
        assert(lines_of(Seq::<char>::empty()) =~= seq![Seq::<char>::empty()]);
        assert(s@.subrange(0, 0) =~= Seq::<char>::empty());
    }
    let mut lines: Vec<Vec<char>> = Vec::new();
    let mut cur: Vec<char> = Vec::new();
    let mut i: usize = 0;
    while i < s.len()
        invariant
            i <= s.len(),
            lines.deep_view().push(cur@) =~~= lines_of(s@.subrange(0, i as int)),
        decreases s.len() - i,
    {
        proof {
            lemma_lines_of_snoc(s@.subrange(0, i as int), s@[i as int]);
            assert(s@.subrange(0, i as int).push(s@[i as int]) =~= s@.subrange(0, i + 1));
        }
        if s[i] == '\n' {
            let ghost old_lines = lines.deep_view();
            let ghost old_cur = cur@;
            let finished = strip_cr_vec(&cur);
            lines.push(finished);
            cur = Vec::new();
            proof {
                assert(lines.deep_view() =~~= old_lines.push(strip_cr(old_cur)));
                assert(lines.deep_view().push(cur@) =~~= lines_of(s@.subrange(0, i + 1)));
            }
        } else {
            let ghost prefix_lines = lines.deep_view().push(cur@);
            cur.push(s[i]);
            proof {
                assert(prefix_lines.drop_last() == lines.deep_view());
                assert(prefix_lines.last().push(s@[i as int]) == cur@);
                assert(lines.deep_view().push(cur@) =~~= lines_of(s@.subrange(0, i + 1)));
            }
        }
        i += 1;
    }
    proof {
        assert(s@.subrange(0, s@.len() as int) =~= s@);
    }
    let ghost old_lines = lines.deep_view();
    let ghost old_cur = cur@;
    lines.push(cur);
    proof {
        assert(lines.deep_view() =~~= old_lines.push(old_cur));
    }
    lines
}

/// Keeps the non-blank lines, first occurrence of each.
pub fn clean_lines_vec(lines: &Vec<Vec<char>>) -> (r: Vec<Vec<char>>)
    ensures
        r.deep_view() == clean_lines(lines.deep_view()),
{
    let mut out: Vec<Vec<char>> = Vec::new();
    let mut i: usize = 0;
    while i < lines.len()
        invariant
            i <= lines.len(),
            out.deep_view() =~~= clean_lines(lines.deep_view().subrange(0, i as int)),
        decreases lines.len() - i,
    {
        proof {
            assert(lines.deep_view().subrange(0, i + 1).drop_last() =~= lines.deep_view().subrange(
                0,
                i as int,
            ));
            assert(lines.deep_view().subrange(0, i + 1).last() == lines.deep_view()[i as int]);
        }
        proof {
            assert(lines@[i as int].deep_view() =~= lines@[i as int]@);
            assert(lines.deep_view()[i as int] == lines@[i as int].deep_view());
        }
        let l = clone_chars(&lines[i]);
        if !blank_chars(&l) && !contains_chars(&out, &l) {
            let ghost old_out = out.deep_view();
            out.push(l);
            proof {
                assert(lines@[i as int].deep_view() =~= lines@[i as int]@);
                assert(out.deep_view() =~~= old_out.push(lines.deep_view()[i as int]));
            }
        }
        i += 1;
    }
    proof {
        assert(lines.deep_view().subrange(0, lines.deep_view().len() as int)
            =~= lines.deep_view());
    }
    out
}

/// Parses a pattern blob into the stored pattern lines.
pub fn parse_patterns(text: &str) -> (r: Vec<Vec<char>>)
    ensures
        r.deep_view() == patterns_of(text@),
{
    let cs = str_to_chars(text);
    let low = lower_chars(&cs);
    let lines = lines_vec(&low);
    clean_lines_vec(&lines)
}

} // verus!
