use vstd::prelude::*;
use vstd::string::StringExecFns;

use crate::stats::{table_view, FileStats};

verus! {

/// The part of a statistics report to produce.
#[derive(Debug, Clone, Copy, PartialEq, Eq, Structural)]
pub enum Section {
    /// The frequent words, then the total, then the longest word.
    All,
    /// Each word with its count, most frequent first.
    FrequentWords,
    /// The number of words.
    Total,
    /// The longest word.
    Longest,
}

/// The decimal digit for `d`, which is below ten.
pub open spec fn digit_char(d: nat) -> char {
    if d == 0 {
        '0'
    } else if d == 1 {
        '1'
    } else if d == 2 {
        '2'
    } else if d == 3 {
        '3'
    } else if d == 4 {
        '4'
    } else if d == 5 {
        '5'
    } else if d == 6 {
        '6'
    } else if d == 7 {
        '7'
    } else if d == 8 {
        '8'
    } else {
        '9'
    }
}

/// `n` written in decimal, without leading zeros.
pub open spec fn decimal(n: nat) -> Seq<char>
    decreases n,
{
    if n < 10 {
        seq![digit_char(n)]
    } else {
        decimal(n / 10).push(digit_char(n % 10))
    }
}

/// `e` put into a table sorted by descending count: after every entry
/// whose count is not smaller than its own.
pub open spec fn insert_by_count(s: Seq<(Seq<char>, nat)>, e: (Seq<char>, nat)) -> Seq<
    (Seq<char>, nat),
>
    decreases s.len(),
{
    if s.len() == 0 {
        seq![e]
    } else if s[0].1 < e.1 {
        seq![e] + s
    } else {
        seq![s[0]] + insert_by_count(s.drop_first(), e)
    }
}

/// The table sorted by descending count; entries of equal count keep their
/// order.
pub open spec fn sort_by_count(t: Seq<(Seq<char>, nat)>) -> Seq<(Seq<char>, nat)>
    decreases t.len(),
{
    if t.len() == 0 {
        seq![]
    } else {
        insert_by_count(sort_by_count(t.drop_last()), t.last())
    }
}

/// One report line per entry of the table, in its order.
pub open spec fn entry_lines(t: Seq<(Seq<char>, nat)>) -> Seq<char>
    decreases t.len(),
{
    if t.len() == 0 {
        seq![]
    } else {
        entry_lines(t.drop_last()) + "  | "@ + t.last().0 + " : "@ + decimal(t.last().1) + "\n"@
    }
}

/// The frequent-words section: a heading, then the sorted entries.
pub open spec fn frequent_words_text(t: Seq<(Seq<char>, nat)>) -> Seq<char> {
    "Frequent words : \n"@ + entry_lines(sort_by_count(t))
}

/// The report text for a section of the statistics.
pub open spec fn report_text(
    t: Seq<(Seq<char>, nat)>,
    total: nat,
    longest: Seq<char>,
    section: Section,
) -> Seq<char> {
    match section {
        Section::All => frequent_words_text(t) + "For a total of "@ + decimal(total) + " words\n"@
            + "With the longest being "@ + longest + "\n"@,
        Section::FrequentWords => frequent_words_text(t),
        Section::Total => "Total amount of words : "@ + decimal(total) + "\n"@,
        Section::Longest => "Longest word is "@ + longest + "\n"@,
    }
}

/// The decimal digit for `d`.
fn digit(d: usize) -> (c: char)
    requires
        d < 10,
    ensures
        c == digit_char(d as nat),
{
    match d {
        0 => '0',
        1 => '1',
        2 => '2',
        3 => '3',
        4 => '4',
        5 => '5',
        6 => '6',
        7 => '7',
        8 => '8',
        _ => '9',
    }
}

/// Appends `n` in decimal.
pub fn push_decimal(out: &mut String, n: usize)
    ensures
        final(out)@ == old(out)@ + decimal(n as nat),
    decreases n,
{
    if n >= 10 {
        push_decimal(out, n / 10);
    }
    crate::text::push_char(out, digit(n % 10));
    proof {
        if n < 10 {
            assert(decimal(n as nat) == seq![digit_char(n as nat)]);
        }
    }
    assert(final(out)@ =~= old(out)@ + decimal(n as nat));
}

proof fn lemma_insert_at(s: Seq<(Seq<char>, nat)>, e: (Seq<char>, nat), pos: int)
    requires
        0 <= pos <= s.len(),
        forall|k: int| 0 <= k < pos ==> s[k].1 >= e.1,
        pos < s.len() ==> s[pos].1 < e.1,
    ensures
        insert_by_count(s, e) == s.insert(pos, e),
    decreases s.len(),
{
    if s.len() == 0 {
        assert(s.insert(pos, e) =~= seq![e]);
    } else if pos == 0 {
        assert(s.insert(pos, e) =~= seq![e] + s);
    } else {
        lemma_insert_at(s.drop_first(), e, pos - 1);
        assert(s.insert(pos, e) =~= seq![s[0]] + s.drop_first().insert(pos - 1, e));
    }
}

/// The table sorted by descending count, entries of equal count in their
/// order in the table.
pub fn sorted_by_count(t: &Vec<(String, usize)>) -> (r: Vec<(String, usize)>)
    ensures
        table_view(r@) == sort_by_count(table_view(t@)),
{
    let mut r: Vec<(String, usize)> = Vec::new();
    let mut i: usize = 0;
    assert(table_view(t@).take(0) == Seq::<(Seq<char>, nat)>::empty());
    assert(table_view(r@) == Seq::<(Seq<char>, nat)>::empty());
    while i < t.len()
        invariant
            i <= t.len(),
            table_view(r@) == sort_by_count(table_view(t@).take(i as int)),
        decreases t.len() - i,
    {
        let ghost sorted = table_view(r@);
        assert(table_view(t@).take(i + 1).drop_last() == table_view(t@).take(i as int));
        let count = t[i].1;
        let ghost e = (t@[i as int].0@, count as nat);
        assert(table_view(t@).take(i + 1).last() == e);
        let mut pos: usize = 0;
        while pos < r.len() && r[pos].1 >= count
            invariant
                pos <= r.len(),
                sorted == table_view(r@),
                e.1 == count as nat,
                forall|k: int| 0 <= k < pos ==> sorted[k].1 >= e.1,
            decreases r.len() - pos,
        {
            assert(sorted[pos as int].1 == r@[pos as int].1 as nat);
            pos = pos + 1;
        }
        proof {
            lemma_insert_at(sorted, e, pos as int);
        }
        r.insert(pos, (t[i].0.clone(), count));
        assert(table_view(r@) =~= sorted.insert(pos as int, e));
        i = i + 1;
    }
    assert(table_view(t@).take(i as int) == table_view(t@));
    r
}

impl FileStats {
    /// Appends one line per entry of the table, in its order.
    fn push_entries(out: &mut String, t: &Vec<(String, usize)>)
        ensures
            final(out)@ == old(out)@ + entry_lines(table_view(t@)),
    {
        let ghost start = out@;
        let mut i: usize = 0;
        assert(table_view(t@).take(0) == Seq::<(Seq<char>, nat)>::empty());
        assert(out@ == start + entry_lines(table_view(t@).take(0)));
        while i < t.len()
            invariant
                i <= t.len(),
                out@ == start + entry_lines(table_view(t@).take(i as int)),
            decreases t.len() - i,
        {
            let ghost v = table_view(t@).take(i + 1);
            assert(v.drop_last() == table_view(t@).take(i as int));
            assert(v.last() == (t@[i as int].0@, t@[i as int].1 as nat));
            out.append("  | ");
            out.append(t[i].0.as_str());
            out.append(" : ");
            push_decimal(out, t[i].1);
            out.append("\n");
            assert(out@ =~= start + entry_lines(v));
            i = i + 1;
        }
        assert(table_view(t@).take(i as int) == table_view(t@));
    }

    /// Appends the frequent-words section.
    fn push_frequent_words(&self, out: &mut String)
        ensures
            final(out)@ == old(out)@ + frequent_words_text(table_view(self.word_frequency@)),
    {
        let ghost start = out@;
        out.append("Frequent words : \n");
        let sorted = sorted_by_count(&self.word_frequency);
        Self::push_entries(out, &sorted);
        assert(out@ =~= start + frequent_words_text(table_view(self.word_frequency@)));
    }

    /// The report text for `section`.
    pub fn render(&self, section: Section) -> (r: String)
        ensures
            r@ == report_text(
                table_view(self.word_frequency@),
                self.total_words as nat,
                self.longest_word@,
                section,
            ),
    {
        let mut out = String::new();
        match section {
            Section::All => {
                self.push_frequent_words(&mut out);
                out.append("For a total of ");
                push_decimal(&mut out, self.total_words);
                out.append(" words\n");
                out.append("With the longest being ");
                out.append(self.longest_word.as_str());
                out.append("\n");
            },
            Section::FrequentWords => {
                self.push_frequent_words(&mut out);
            },
            Section::Total => {
                out.append("Total amount of words : ");
                push_decimal(&mut out, self.total_words);
                out.append("\n");
            },
            Section::Longest => {
                out.append("Longest word is ");
                out.append(self.longest_word.as_str());
                out.append("\n");
            },
        }
        assert(out@ =~= report_text(
            table_view(self.word_frequency@),
            self.total_words as nat,
            self.longest_word@,
            section,
        ));
        out
    }
}

} // verus!
