use vstd::prelude::*;
use vstd::utf8::encode_utf8;

use crate::text::{chars_of, lines_of, split_lines, string_of};

verus! {

/// Whether `c` has Unicode's White_Space property, the whitespace that
/// separates words.
pub open spec fn is_white(c: char) -> bool {
    let u = c as u32;
    ||| 0x9 <= u <= 0xd
    ||| u == 0x20
    ||| u == 0x85
    ||| u == 0xa0
    ||| u == 0x1680
    ||| 0x2000 <= u <= 0x200a
    ||| u == 0x2028
    ||| u == 0x2029
    ||| u == 0x202f
    ||| u == 0x205f
    ||| u == 0x3000
}

/// Whether `c` separates words.
pub fn is_whitespace(c: char) -> (r: bool)
    ensures
        r == is_white(c),
{
    let u = c as u32;
    (0x9 <= u && u <= 0xd) || u == 0x20 || u == 0x85 || u == 0xa0 || u == 0x1680 || (0x2000 <= u
        && u <= 0x200a) || u == 0x2028 || u == 0x2029 || u == 0x202f || u == 0x205f || u == 0x3000
}

/// The words of `s`, given that `cur` holds the part of the current word
/// read so far. A word is a maximal run of characters that are not
/// whitespace.
pub open spec fn words_from(s: Seq<char>, cur: Seq<char>) -> Seq<Seq<char>>
    decreases s.len(),
{
    if s.len() == 0 {
        if cur.len() == 0 {
            seq![]
        } else {
            seq![cur]
        }
    } else if is_white(s[0]) {
        (if cur.len() == 0 {
            seq![]
        } else {
            seq![cur]
        }) + words_from(s.drop_first(), seq![])
    } else {
        words_from(s.drop_first(), cur.push(s[0]))
    }
}

/// The words of one line, left to right.
pub open spec fn words_of(s: Seq<char>) -> Seq<Seq<char>> {
    words_from(s, seq![])
}

/// The words of all lines, line after line.
pub open spec fn words_of_lines(lines: Seq<Seq<char>>) -> Seq<Seq<char>>
    decreases lines.len(),
{
    if lines.len() == 0 {
        seq![]
    } else {
        words_of_lines(lines.drop_last()) + words_of(lines.last())
    }
}

/// The words of a text, in reading order.
pub open spec fn text_words(s: Seq<char>) -> Seq<Seq<char>> {
    words_of_lines(lines_of(s))
}

/// The length of a word in bytes of UTF-8.
pub open spec fn byte_len(w: Seq<char>) -> nat {
    encode_utf8(w).len()
}

/// The first word that is longer than every word before it and not
/// shorter than any word after it; empty when there are no words.
pub open spec fn longest_of(words: Seq<Seq<char>>) -> Seq<char>
    decreases words.len(),
{
    if words.len() == 0 {
        seq![]
    } else {
        let before = longest_of(words.drop_last());
        if byte_len(before) < byte_len(words.last()) {
            words.last()
        } else {
            before
        }
    }
}

/// No word stands twice as a key of the table.
pub open spec fn keys_distinct(t: Seq<(Seq<char>, nat)>) -> bool {
    forall|i: int, j: int| 0 <= i < j < t.len() ==> t[i].0 != t[j].0
}

/// `w` is a key of the table.
pub open spec fn has_key(t: Seq<(Seq<char>, nat)>, w: Seq<char>) -> bool {
    exists|i: int| 0 <= i < t.len() && t[i].0 == w
}

/// The table after one more occurrence of `w`: its count goes up by one, or
/// it is added at the end with a count of one.
pub open spec fn tally(t: Seq<(Seq<char>, nat)>, w: Seq<char>) -> Seq<(Seq<char>, nat)> {
    if has_key(t, w) {
        let i = choose|i: int| 0 <= i < t.len() && t[i].0 == w;
        t.update(i, (w, t[i].1 + 1))
    } else {
        t.push((w, 1))
    }
}

/// Each distinct word with its number of occurrences, in order of first
/// occurrence.
pub open spec fn frequencies(words: Seq<Seq<char>>) -> Seq<(Seq<char>, nat)>
    decreases words.len(),
{
    if words.len() == 0 {
        seq![]
    } else {
        tally(frequencies(words.drop_last()), words.last())
    }
}

/// A frequency table as words and counts.
pub open spec fn table_view(t: Seq<(String, usize)>) -> Seq<(Seq<char>, nat)> {
    t.map_values(|e: (String, usize)| (e.0@, e.1 as nat))
}

/// What a text holds in words.
pub struct FileStats {
    /// Each distinct word with its count, in order of first occurrence.
    pub word_frequency: Vec<(String, usize)>,
    /// The number of words.
    pub total_words: usize,
    /// The first word of the greatest length in bytes; empty when there are
    /// none.
    pub longest_word: String,
}

/// Splits one line into its words.
pub fn split_words(s: &Vec<char>) -> (r: Vec<Vec<char>>)
    ensures
        r@.len() == words_of(s@).len(),
        forall|k: int| 0 <= k < r@.len() ==> #[trigger] r@[k]@ == words_of(s@)[k],
{
    let mut r: Vec<Vec<char>> = Vec::new();
    let mut cur: Vec<char> = Vec::new();
    let mut i: usize = 0;
    assert(s@.skip(0) == s@);
    while i < s.len()
        invariant
            i <= s.len(),
            r@.len() + words_from(s@.skip(i as int), cur@).len() == words_of(s@).len(),
            forall|k: int| 0 <= k < r@.len() ==> #[trigger] r@[k]@ == words_of(s@)[k],
            forall|k: int|
                0 <= k < words_from(s@.skip(i as int), cur@).len() ==> #[trigger] words_from(
                    s@.skip(i as int),
                    cur@,
                )[k] == words_of(s@)[r@.len() + k],
        decreases s.len() - i,
    {
        let ghost rest = s@.skip(i as int);
        assert(rest.drop_first() == s@.skip(i + 1));
        let c = s[i];
        let ghost old_cur = cur@;
        let ghost old_len = r@.len();
        assert(rest[0] == c);
        let white = is_whitespace(c);
        if white {
            assert(words_from(rest, old_cur) == (if old_cur.len() == 0 {
                seq![]
            } else {
                seq![old_cur]
            }) + words_from(s@.skip(i + 1), seq![]));
            if cur.len() > 0 {
                assert(words_from(rest, old_cur)[0] == old_cur);
                assert forall|k: int|
                    0 <= k < words_from(s@.skip(i + 1), seq![]).len() implies #[trigger] words_from(
                        s@.skip(i + 1),
                        seq![],
                    )[k] == words_of(s@)[old_len + 1 + k] by {
                    assert(words_from(rest, old_cur)[k + 1] == words_from(
                        s@.skip(i + 1),
                        seq![],
                    )[k]);
                }
                r.push(cur);
                cur = Vec::new();
            } else {
                assert(cur@ == Seq::<char>::empty());
                assert(Seq::<Seq<char>>::empty() + words_from(s@.skip(i + 1), seq![])
                    == words_from(s@.skip(i + 1), seq![]));
            }
        } else {
            cur.push(c);
            assert(words_from(rest, old_cur) == words_from(s@.skip(i + 1), cur@));
        }
        i = i + 1;
    }
    if cur.len() > 0 {
        assert(words_from(s@.skip(i as int), cur@)[0] == cur@);
        r.push(cur);
    }
    r
}

/// The words of `content`, in reading order.
pub fn words_in(content: &str) -> (r: Vec<String>)
    ensures
        r@.len() == text_words(content@).len(),
        forall|k: int| 0 <= k < r@.len() ==> #[trigger] r@[k]@ == text_words(content@)[k],
{
    let s = chars_of(content);
    let lines = split_lines(&s);
    let ghost ls = lines_of(content@);
    let mut r: Vec<String> = Vec::new();
    let mut i: usize = 0;
    assert(ls.take(0) == Seq::<Seq<char>>::empty());
    while i < lines.len()
        invariant
            i <= lines.len(),
            lines@.len() == ls.len(),
            forall|k: int| 0 <= k < lines@.len() ==> #[trigger] lines@[k]@ == ls[k],
            r@.len() == words_of_lines(ls.take(i as int)).len(),
            forall|k: int|
                0 <= k < r@.len() ==> #[trigger] r@[k]@ == words_of_lines(ls.take(i as int))[k],
        decreases lines.len() - i,
    {
        assert(ls.take(i + 1).drop_last() == ls.take(i as int));
        let ws = split_words(&lines[i]);
        let ghost base = r@.len();
        let mut j: usize = 0;
        while j < ws.len()
            invariant
                j <= ws.len(),
                i < lines.len(),
                lines@.len() == ls.len(),
                ws@.len() == words_of(ls[i as int]).len(),
                forall|k: int| 0 <= k < ws@.len() ==> #[trigger] ws@[k]@ == words_of(ls[i as int])[k],
                base == words_of_lines(ls.take(i as int)).len(),
                r@.len() == base + j,
                forall|k: int|
                    0 <= k < base ==> #[trigger] r@[k]@ == words_of_lines(ls.take(i as int))[k],
                forall|k: int| base <= k < r@.len() ==> #[trigger] r@[k]@ == ws@[k - base]@,
            decreases ws.len() - j,
        {
            r.push(string_of(&ws[j]));
            j = j + 1;
        }
        assert(ls.take(i + 1).last() == ls[i as int]);
        i = i + 1;
    }
    assert(ls.take(i as int) == ls);
    r
}

/// The words of a list of strings.
pub open spec fn word_seq(words: Seq<String>) -> Seq<Seq<char>> {
    words.map_values(|w: String| w@)
}

/// The frequency table, word count and longest word of a list of words.
pub fn tally_words(words: &Vec<String>) -> (r: FileStats)
    ensures
        table_view(r.word_frequency@) == frequencies(word_seq(words@)),
        r.total_words == words@.len(),
        r.longest_word@ == longest_of(word_seq(words@)),
{
    let ghost ws = word_seq(words@);
    let mut table: Vec<(String, usize)> = Vec::new();
    let mut longest = String::new();
    let mut i: usize = 0;
    assert(ws.take(0) == Seq::<Seq<char>>::empty());
    assert(table_view(table@) == Seq::<(Seq<char>, nat)>::empty());
    while i < words.len()
        invariant
            i <= words.len(),
            ws == word_seq(words@),
            table_view(table@) == frequencies(ws.take(i as int)),
            keys_distinct(table_view(table@)),
            forall|k: int| 0 <= k < table@.len() ==> #[trigger] table@[k].1 <= i,
            longest@ == longest_of(ws.take(i as int)),
        decreases words.len() - i,
    {
        let ghost before = table_view(table@);
        let w = &words[i];
        assert(ws.take(i + 1).drop_last() == ws.take(i as int));
        assert(ws.take(i + 1).last() == w@);
        let longest_len = longest.as_str().as_bytes().len();
        let word_len = w.as_str().as_bytes().len();
        if longest_len < word_len {
            longest = w.clone();
        }
        let mut j: usize = 0;
        let mut found = false;
        while j < table.len()
            invariant_except_break
                !found,
            invariant
                j <= table.len(),
                before == table_view(table@),
                forall|k: int| 0 <= k < j ==> before[k].0 != w@,
            ensures
                !found ==> forall|k: int| 0 <= k < before.len() ==> before[k].0 != w@,
                found ==> j < table.len() && before[j as int].0 == w@,
            decreases table.len() - j,
        {
            if table[j].0 == *w {
                found = true;
                break;
            }
            j = j + 1;
        }
        if found {
            proof {
                let c = choose|c: int| 0 <= c < before.len() && before[c].0 == w@;
                assert(c == j);
            }
            let n = table[j].1;
            table.set(j, (w.clone(), n + 1));
            assert(table_view(table@) =~= before.update(j as int, (w@, before[j as int].1 + 1)));
        } else {
            assert(!has_key(before, w@));
            table.push((w.clone(), 1));
            assert(table_view(table@) =~= before.push((w@, 1)));
        }
        i = i + 1;
    }
    assert(ws.take(i as int) == ws);
    FileStats { word_frequency: table, total_words: i, longest_word: longest }
}

/// The words of `content` counted: each distinct word with its number of
/// occurrences in order of first occurrence, the number of words, and the
/// first word of the greatest length in bytes.
pub fn stats(content: &str) -> (r: FileStats)
    ensures
        table_view(r.word_frequency@) == frequencies(text_words(content@)),
        r.total_words == text_words(content@).len(),
        r.longest_word@ == longest_of(text_words(content@)),
{
    let words = words_in(content);
    assert(word_seq(words@) == text_words(content@));
    tally_words(&words)
}

} // verus!
