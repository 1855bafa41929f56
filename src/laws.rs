use vstd::prelude::*;

use crate::rewrite::{join_lines, replace_all, replaced_lines, rewritten};
use crate::report::{insert_by_count, sort_by_count};
use crate::scan::{count_matching, matching_lines};
use crate::stats::{
    frequencies, has_key, keys_distinct, longest_of, tally, text_words, words_of_lines,
};
use crate::text::{contains, lines_from, lines_of, occurs_at, strip_cr};

verus! {

/// A line that reads back as itself once written with a newline after it:
/// it holds no newline and does not end in a carriage return.
pub open spec fn plain_line(l: Seq<char>) -> bool {
    &&& forall|i: int| 0 <= i < l.len() ==> l[i] != '\n'
    &&& !(l.len() > 0 && l.last() == '\r')
}

proof fn lemma_lines_from_append(x: Seq<char>, t: Seq<char>, cur: Seq<char>)
    requires
        forall|i: int| 0 <= i < x.len() ==> x[i] != '\n',
    ensures
        lines_from(x + t, cur) == lines_from(t, cur + x),
    decreases x.len(),
{
    if x.len() == 0 {
        assert(x + t == t);
        assert(cur + x == cur);
    } else {
        assert((x + t)[0] == x[0]);
        assert((x + t).drop_first() == x.drop_first() + t);
        lemma_lines_from_append(x.drop_first(), t, cur.push(x[0]));
        assert(cur.push(x[0]) + x.drop_first() == cur + x);
    }
}

proof fn lemma_join_first(ls: Seq<Seq<char>>)
    requires
        ls.len() > 0,
    ensures
        join_lines(ls) == ls[0] + seq!['\n'] + join_lines(ls.drop_first()),
    decreases ls.len(),
{
    if ls.len() == 1 {
        assert(ls.drop_last().len() == 0);
        assert(ls.drop_first().len() == 0);
        assert(ls.last() == ls[0]);
        assert(join_lines(ls.drop_last()) == Seq::<char>::empty());
        assert(join_lines(ls.drop_first()) == Seq::<char>::empty());
        assert(join_lines(ls) =~= ls[0] + seq!['\n'] + Seq::<char>::empty());
    } else {
        lemma_join_first(ls.drop_last());
        assert(ls.drop_last()[0] == ls[0]);
        assert(ls.drop_last().drop_first() == ls.drop_first().drop_last());
        assert(ls.drop_first().last() == ls.last());
        assert(join_lines(ls) =~= ls[0] + seq!['\n'] + join_lines(ls.drop_first()));
    }
}

/// Lines that read back as themselves, written one after another with a
/// newline after each, read back as the same lines.
pub proof fn lemma_lines_of_join(ls: Seq<Seq<char>>)
    requires
        forall|k: int| 0 <= k < ls.len() ==> plain_line(#[trigger] ls[k]),
    ensures
        lines_of(join_lines(ls)) == ls,
    decreases ls.len(),
{
    if ls.len() == 0 {
        assert(lines_of(join_lines(ls)) =~= ls);
    } else {
        let l = ls[0];
        let rest = join_lines(ls.drop_first());
        lemma_join_first(ls);
        assert(plain_line(l));
        assert(join_lines(ls) == l + (seq!['\n'] + rest));
        lemma_lines_from_append(l, seq!['\n'] + rest, seq![]);
        assert(Seq::<char>::empty() + l == l);
        assert((seq!['\n'] + rest)[0] == '\n');
        assert((seq!['\n'] + rest).drop_first() == rest);
        assert(strip_cr(l) == l);
        assert forall|k: int| 0 <= k < ls.drop_first().len() implies plain_line(
            #[trigger] ls.drop_first()[k],
        ) by {
            assert(ls.drop_first()[k] == ls[k + 1]);
        }
        lemma_lines_of_join(ls.drop_first());
        assert(lines_of(join_lines(ls)) =~= seq![l] + ls.drop_first());
        assert(seq![l] + ls.drop_first() =~= ls);
    }
}

/// A line without the pattern comes out of a replace unchanged.
pub proof fn lemma_replace_all_without_pattern(s: Seq<char>, p: Seq<char>, r: Seq<char>)
    requires
        p.len() > 0,
        !contains(s, p),
    ensures
        replace_all(s, p, r) == s,
    decreases s.len(),
{
    if s.len() >= p.len() {
        assert(s.take(p.len() as int) == s.subrange(0, p.len() as int));
        assert(!occurs_at(s, p, 0));
        assert(!contains(s.drop_first(), p)) by {
            if contains(s.drop_first(), p) {
                let i = choose|i: int| occurs_at(s.drop_first(), p, i);
                assert(s.subrange(i + 1, i + 1 + p.len()) == s.drop_first().subrange(
                    i,
                    i + p.len(),
                ));
                assert(occurs_at(s, p, i + 1));
            }
        }
        lemma_replace_all_without_pattern(s.drop_first(), p, r);
        assert(seq![s[0]] + s.drop_first() == s);
    }
}

/// A line that held the pattern holds the replacement after a replace.
pub proof fn lemma_replace_all_shows_replacement(s: Seq<char>, p: Seq<char>, r: Seq<char>)
    requires
        p.len() > 0,
        contains(s, p),
    ensures
        contains(replace_all(s, p, r), r),
    decreases s.len(),
{
    let i = choose|i: int| occurs_at(s, p, i);
    assert(s.len() >= p.len());
    if s.take(p.len() as int) == p {
        let out = replace_all(s, p, r);
        assert(out == r + replace_all(s.skip(p.len() as int), p, r));
        assert(out.subrange(0, r.len() as int) == r);
        assert(occurs_at(out, r, 0));
    } else {
        assert(i != 0) by {
            if i == 0 {
                assert(s.take(p.len() as int) == s.subrange(0, p.len() as int));
            }
        }
        let t = s.drop_first();
        assert(t.subrange(i - 1, i - 1 + p.len()) == s.subrange(i, i + p.len()));
        assert(occurs_at(t, p, i - 1));
        lemma_replace_all_shows_replacement(t, p, r);
        let x = replace_all(t, p, r);
        let j = choose|j: int| occurs_at(x, r, j);
        let out = seq![s[0]] + x;
        assert(out.subrange(j + 1, j + 1 + r.len()) == x.subrange(j, j + r.len()));
        assert(occurs_at(out, r, j + 1));
    }
}

proof fn lemma_count_monotone(
    ls: Seq<Seq<char>>,
    ms: Seq<Seq<char>>,
    p: Seq<char>,
    q: Seq<char>,
)
    requires
        ls.len() == ms.len(),
        forall|k: int| 0 <= k < ls.len() && contains(ls[k], p) ==> contains(#[trigger] ms[k], q),
    ensures
        count_matching(ms, q) >= count_matching(ls, p),
    decreases ls.len(),
{
    reveal(Seq::filter);
    if ls.len() > 0 {
        lemma_count_monotone(ls.drop_last(), ms.drop_last(), p, q);
        assert(ls.last() == ls[ls.len() - 1]);
        assert(ms.last() == ms[ms.len() - 1]);
    }
}

/// The number of lines that a count reports is the number of line numbers
/// that a search reports, for every text and pattern.
pub proof fn count_agrees_with_search(ls: Seq<Seq<char>>, p: Seq<char>)
    ensures
        count_matching(ls, p) == matching_lines(ls, p).len(),
    decreases ls.len(),
{
    reveal(Seq::filter);
    if ls.len() > 0 {
        count_agrees_with_search(ls.drop_last(), p);
    }
}

/// The line numbers of a search are ascending, each names a line that holds
/// the pattern, and every line that holds it is named.
pub proof fn search_finds_exactly_the_matching_lines(ls: Seq<Seq<char>>, p: Seq<char>)
    ensures
        forall|a: int, b: int|
            0 <= a < b < matching_lines(ls, p).len() ==> matching_lines(ls, p)[a]
                < matching_lines(ls, p)[b],
        forall|a: int|
            0 <= a < matching_lines(ls, p).len() ==> 1 <= #[trigger] matching_lines(ls, p)[a]
                <= ls.len() && contains(ls[matching_lines(ls, p)[a] - 1], p),
        forall|i: int|
            0 <= i < ls.len() && contains(#[trigger] ls[i], p) ==> exists|a: int|
                0 <= a < matching_lines(ls, p).len() && matching_lines(ls, p)[a] == i + 1,
    decreases ls.len(),
{
    if ls.len() > 0 {
        let before = ls.drop_last();
        search_finds_exactly_the_matching_lines(before, p);
        let m0 = matching_lines(before, p);
        let m = matching_lines(ls, p);
        assert forall|a: int| 0 <= a < m0.len() implies m0[a] <= before.len() && m[a] == m0[a]
            && contains(ls[m[a] - 1], p) by {
            assert(1 <= m0[a] <= before.len());
            assert(before[m0[a] - 1] == ls[m0[a] - 1]);
        }
        assert forall|i: int| 0 <= i < ls.len() && contains(#[trigger] ls[i], p) implies exists|
            a: int,
        | 0 <= a < m.len() && m[a] == i + 1 by {
            if i < before.len() {
                assert(before[i] == ls[i]);
                let a = choose|a: int| 0 <= a < m0.len() && m0[a] == i + 1;
                assert(m[a] == i + 1);
            } else {
                assert(m[m0.len() as int] == i + 1);
            }
        }
    }
}

/// Replacing twice in a row writes what replacing once wrote, when the
/// first pass leaves no occurrence of the pattern on any line and writes
/// only lines that read back as themselves.
pub proof fn replace_is_idempotent(s: Seq<char>, p: Seq<char>, r: Seq<char>)
    requires
        p.len() > 0,
        forall|k: int|
            0 <= k < replaced_lines(lines_of(s), p, r).len() ==> plain_line(
                #[trigger] replaced_lines(lines_of(s), p, r)[k],
            ) && !contains(replaced_lines(lines_of(s), p, r)[k], p),
    ensures
        rewritten(rewritten(s, p, r), p, r) == rewritten(s, p, r),
{
    let m = replaced_lines(lines_of(s), p, r);
    lemma_lines_of_join(m);
    assert forall|k: int| 0 <= k < m.len() implies #[trigger] replaced_lines(m, p, r)[k]
        == m[k] by {
        lemma_replace_all_without_pattern(m[k], p, r);
    }
    assert(replaced_lines(m, p, r) =~= m);
}

/// After a replace, the rewritten text has at least as many lines holding
/// the replacement as the old text had lines holding the pattern, when the
/// replacement is not empty and every rewritten line reads back as itself.
pub proof fn replace_keeps_matching_lines(s: Seq<char>, p: Seq<char>, r: Seq<char>)
    requires
        p.len() > 0,
        r.len() > 0,
        forall|k: int|
            0 <= k < replaced_lines(lines_of(s), p, r).len() ==> plain_line(
                #[trigger] replaced_lines(lines_of(s), p, r)[k],
            ),
    ensures
        count_matching(lines_of(rewritten(s, p, r)), r) >= count_matching(lines_of(s), p),
{
    let ls = lines_of(s);
    let m = replaced_lines(ls, p, r);
    lemma_lines_of_join(m);
    assert forall|k: int| 0 <= k < ls.len() && contains(ls[k], p) implies contains(
        #[trigger] m[k],
        r,
    ) by {
        lemma_replace_all_shows_replacement(ls[k], p, r);
    }
    lemma_count_monotone(ls, m, p, r);
}

/// The number of times `w` stands in `words`.
pub open spec fn occurrences(words: Seq<Seq<char>>, w: Seq<char>) -> nat
    decreases words.len(),
{
    if words.len() == 0 {
        0
    } else {
        occurrences(words.drop_last(), w) + if words.last() == w {
            1nat
        } else {
            0nat
        }
    }
}

/// An empty text has no words, so no frequencies and an empty longest word.
pub proof fn empty_text_has_empty_stats(s: Seq<char>)
    requires
        s.len() == 0,
    ensures
        text_words(s).len() == 0,
        frequencies(text_words(s)).len() == 0,
        longest_of(text_words(s)) == Seq::<char>::empty(),
{
    assert(lines_of(s) == Seq::<Seq<char>>::empty());
    assert(words_of_lines(lines_of(s)) == Seq::<Seq<char>>::empty());
}

/// In the frequency table of a list of words no word stands twice, each
/// word's count is its number of occurrences, and a word that is not in the
/// table does not occur.
pub proof fn frequencies_count_occurrences(words: Seq<Seq<char>>)
    ensures
        keys_distinct(frequencies(words)),
        forall|k: int|
            0 <= k < frequencies(words).len() ==> #[trigger] frequencies(words)[k].1
                == occurrences(words, frequencies(words)[k].0),
        forall|w: Seq<char>|
            !has_key(frequencies(words), w) ==> #[trigger] occurrences(words, w) == 0,
    decreases words.len(),
{
    if words.len() > 0 {
        let before = words.drop_last();
        let x = words.last();
        let f0 = frequencies(before);
        frequencies_count_occurrences(before);
        let f = frequencies(words);
        assert(f == tally(f0, x));
        if has_key(f0, x) {
            let i = choose|i: int| 0 <= i < f0.len() && f0[i].0 == x;
            assert(f == f0.update(i, (x, f0[i].1 + 1)));
            assert forall|k: int| 0 <= k < f.len() implies #[trigger] f[k].1 == occurrences(
                words,
                f[k].0,
            ) by {
                if k != i {
                    assert(f0[k].0 != x);
                }
            }
            assert forall|a: int| 0 <= a < f.len() implies #[trigger] f[a].0 == f0[a].0 by {}
            assert(keys_distinct(f));
            assert forall|w: Seq<char>| !has_key(f, w) implies #[trigger] occurrences(words, w)
                == 0 by {
                assert(f[i].0 == x);
                assert(w != x);
                if has_key(f0, w) {
                    let j = choose|j: int| 0 <= j < f0.len() && f0[j].0 == w;
                    assert(0 <= j < f.len() && f[j].0 == w);
                }
                assert(occurrences(before, w) == 0);
            }
        } else {
            assert(f == f0.push((x, 1)));
            assert(occurrences(before, x) == 0);
            assert forall|k: int| 0 <= k < f.len() implies #[trigger] f[k].1 == occurrences(
                words,
                f[k].0,
            ) by {
                if k < f0.len() {
                    assert(f[k] == f0[k]);
                    assert(f0[k].0 != x);
                }
            }
            assert forall|a: int, b: int| 0 <= a < b < f.len() implies f[a].0 != f[b].0 by {
                if b == f0.len() {
                    assert(f[a].0 == f0[a].0);
                    assert(f0[a].0 != x);
                } else {
                    assert(f[a] == f0[a] && f[b] == f0[b]);
                }
            }
            assert(keys_distinct(f));
            assert forall|w: Seq<char>| !has_key(f, w) implies #[trigger] occurrences(words, w)
                == 0 by {
                assert(f[f0.len() as int].0 == x);
                assert(w != x);
                if has_key(f0, w) {
                    let j = choose|j: int| 0 <= j < f0.len() && f0[j].0 == w;
                    assert(0 <= j < f.len() && f[j].0 == w);
                }
                assert(occurrences(before, w) == 0);
            }
        }
    }
}

/// The counts of the table do not increase from one entry to the next.
pub open spec fn descending(t: Seq<(Seq<char>, nat)>) -> bool {
    forall|a: int, b: int| 0 <= a < b < t.len() ==> t[a].1 >= t[b].1
}

proof fn lemma_insert_keeps_descending(s: Seq<(Seq<char>, nat)>, e: (Seq<char>, nat))
    requires
        descending(s),
    ensures
        descending(insert_by_count(s, e)),
        insert_by_count(s, e).len() == s.len() + 1,
        insert_by_count(s, e)[0] == e || (s.len() > 0 && insert_by_count(s, e)[0] == s[0]),
        insert_by_count(s, e).to_multiset() == s.to_multiset().insert(e),
    decreases s.len(),
{
    broadcast use vstd::seq_lib::group_to_multiset_ensures;

    let ins = insert_by_count(s, e);
    if s.len() == 0 {
        assert(ins == seq![e]);
        assert(seq![e] == Seq::<(Seq<char>, nat)>::empty().push(e));
    } else if s[0].1 < e.1 {
        assert(ins == seq![e] + s);
        assert(ins == s.insert(0, e));
        s.to_multiset_ensures();
        assert forall|a: int, b: int| 0 <= a < b < ins.len() implies ins[a].1 >= ins[b].1 by {
            if a == 0 {
                assert(ins[b] == s[b - 1]);
                assert(s[0].1 >= s[b - 1].1 || b - 1 == 0);
            } else {
                assert(ins[a] == s[a - 1] && ins[b] == s[b - 1]);
            }
        }
    } else {
        let rest = s.drop_first();
        assert(descending(rest)) by {
            assert forall|a: int, b: int| 0 <= a < b < rest.len() implies rest[a].1
                >= rest[b].1 by {
                assert(rest[a] == s[a + 1] && rest[b] == s[b + 1]);
            }
        }
        lemma_insert_keeps_descending(rest, e);
        let tail = insert_by_count(rest, e);
        assert(ins == seq![s[0]] + tail);
        assert(tail[0].1 <= s[0].1) by {
            if tail[0] != e {
                assert(tail[0] == rest[0] && rest[0] == s[1]);
            }
        }
        assert forall|a: int, b: int| 0 <= a < b < ins.len() implies ins[a].1 >= ins[b].1 by {
            if a == 0 {
                assert(ins[b] == tail[b - 1]);
                assert(tail[0].1 >= tail[b - 1].1 || b - 1 == 0);
            } else {
                assert(ins[a] == tail[a - 1] && ins[b] == tail[b - 1]);
            }
        }
        assert(s == seq![s[0]] + rest);
        assert((seq![s[0]] + rest).to_multiset() == rest.to_multiset().insert(s[0])) by {
            assert(seq![s[0]] + rest == rest.insert(0, s[0]));
            rest.to_multiset_ensures();
        }
        assert((seq![s[0]] + tail).to_multiset() == tail.to_multiset().insert(s[0])) by {
            assert(seq![s[0]] + tail == tail.insert(0, s[0]));
            tail.to_multiset_ensures();
        }
        assert(ins.to_multiset() =~= s.to_multiset().insert(e));
    }
}

/// Sorting a frequency table for display keeps exactly its entries and puts
/// them in order of descending count.
pub proof fn sorted_table_is_descending(t: Seq<(Seq<char>, nat)>)
    ensures
        descending(sort_by_count(t)),
        sort_by_count(t).to_multiset() == t.to_multiset(),
    decreases t.len(),
{
    broadcast use vstd::seq_lib::group_to_multiset_ensures;

    if t.len() > 0 {
        sorted_table_is_descending(t.drop_last());
        lemma_insert_keeps_descending(sort_by_count(t.drop_last()), t.last());
        assert(t == t.drop_last().push(t.last()));
    } else {
        assert(sort_by_count(t) == Seq::<(Seq<char>, nat)>::empty());
        assert(t == Seq::<(Seq<char>, nat)>::empty());
    }
}

} // verus!
