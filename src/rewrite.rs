use vstd::prelude::*;

use crate::error::TextError;
use crate::scan::pattern_chars;
use crate::text::{chars_of, lines_of, occurs_at_exec, split_lines, string_of};

verus! {

/// `s` with every occurrence of `p` replaced by `r`, scanning from the left
/// and never letting two replaced occurrences overlap. An empty `p` occurs
/// once before each character and once at the end.
pub open spec fn replace_all(s: Seq<char>, p: Seq<char>, r: Seq<char>) -> Seq<char>
    decreases s.len(),
{
    if p.len() == 0 {
        if s.len() == 0 {
            r
        } else {
            r + seq![s[0]] + replace_all(s.drop_first(), p, r)
        }
    } else if s.len() < p.len() {
        s
    } else if s.take(p.len() as int) == p {
        r + replace_all(s.skip(p.len() as int), p, r)
    } else {
        seq![s[0]] + replace_all(s.drop_first(), p, r)
    }
}

/// The lines written out one after another, each ended by a newline.
pub open spec fn join_lines(lines: Seq<Seq<char>>) -> Seq<char>
    decreases lines.len(),
{
    if lines.len() == 0 {
        seq![]
    } else {
        join_lines(lines.drop_last()) + lines.last() + seq!['\n']
    }
}

/// Each line with `p` replaced by `r`.
pub open spec fn replaced_lines(lines: Seq<Seq<char>>, p: Seq<char>, r: Seq<char>) -> Seq<
    Seq<char>,
> {
    lines.map_values(|l: Seq<char>| replace_all(l, p, r))
}

/// The text that replacing `p` by `r` on every line of `s` writes back.
pub open spec fn rewritten(s: Seq<char>, p: Seq<char>, r: Seq<char>) -> Seq<char> {
    join_lines(replaced_lines(lines_of(s), p, r))
}

/// Appends the characters of `r` to `out`.
fn append_chars(out: &mut Vec<char>, r: &Vec<char>)
    ensures
        final(out)@ == old(out)@ + r@,
{
    let ghost start = out@;
    let mut j: usize = 0;
    while j < r.len()
        invariant
            j <= r.len(),
            out@ == start + r@.take(j as int),
        decreases r.len() - j,
    {
        out.push(r[j]);
        j = j + 1;
        assert(out@ == start + r@.take(j as int));
    }
    assert(r@.take(j as int) == r@);
}

/// One line with every occurrence of `p` replaced by `r`.
pub fn replace_line(line: &Vec<char>, p: &Vec<char>, r: &Vec<char>) -> (out: Vec<char>)
    ensures
        out@ == replace_all(line@, p@, r@),
{
    let mut out: Vec<char> = Vec::new();
    let mut i: usize = 0;
    assert(line@.skip(0) == line@);
    while i < line.len()
        invariant
            i <= line.len(),
            out@ + replace_all(line@.skip(i as int), p@, r@) == replace_all(line@, p@, r@),
        decreases line.len() - i,
    {
        let ghost rest = line@.skip(i as int);
        if p.len() == 0 {
            assert(rest.drop_first() == line@.skip(i + 1));
            assert(rest[0] == line@[i as int]);
            append_chars(&mut out, r);
            out.push(line[i]);
            i = i + 1;
            assert(out@ + replace_all(line@.skip(i as int), p@, r@) == replace_all(line@, p@, r@));
        } else if occurs_at_exec(line, p, i) {
            assert(rest.take(p@.len() as int) == line@.subrange(i as int, i + p@.len()));
            assert(rest.skip(p@.len() as int) == line@.skip(i + p@.len()));
            append_chars(&mut out, r);
            i = i + p.len();
        } else {
            assert(rest.take(p@.len() as int) != p@ || rest.len() < p@.len()) by {
                if rest.len() >= p@.len() {
                    assert(rest.take(p@.len() as int) == line@.subrange(i as int, i + p@.len()));
                }
            }
            assert(rest.drop_first() == line@.skip(i + 1));
            assert(replace_all(rest, p@, r@) == seq![rest[0]] + replace_all(
                rest.drop_first(),
                p@,
                r@,
            ));
            out.push(line[i]);
            i = i + 1;
        }
    }
    assert(line@.skip(i as int) == Seq::<char>::empty());
    if p.len() == 0 {
        append_chars(&mut out, r);
    } else {
        assert(out@ + Seq::<char>::empty() == out@);
    }
    out
}

/// Replaces every occurrence of the pattern by the replacement on each line
/// of `content`, and returns the text to write back: the new lines, each
/// ended by a newline.
pub fn replace(content: &str, pattern: Option<&str>, replacement: Option<&str>) -> (res: Result<
    String,
    TextError,
>)
    ensures
        pattern is None ==> res == Err::<String, TextError>(TextError::PatternRequired),
        pattern is Some && replacement is None ==> res == Err::<String, TextError>(
            TextError::ReplacementRequired,
        ),
        pattern is Some && replacement is Some ==> (res matches Ok(t) && t@ == rewritten(
            content@,
            pattern->0@,
            replacement->0@,
        )),
{
    let p = match pattern_chars(pattern) {
        Ok(p) => p,
        Err(e) => return Err(e),
    };
    let r = match replacement {
        Some(r) => chars_of(r),
        None => return Err(TextError::ReplacementRequired),
    };
    let s = chars_of(content);
    let lines = split_lines(&s);
    let ghost ls = lines_of(content@);
    let ghost m = replaced_lines(ls, p@, r@);
    let mut out: Vec<char> = Vec::new();
    let mut i: usize = 0;
    assert(m.take(0) == Seq::<Seq<char>>::empty());
    while i < lines.len()
        invariant
            i <= lines.len(),
            lines@.len() == ls.len(),
            m == replaced_lines(ls, p@, r@),
            forall|k: int| 0 <= k < lines@.len() ==> #[trigger] lines@[k]@ == ls[k],
            out@ == join_lines(m.take(i as int)),
        decreases lines.len() - i,
    {
        assert(m.take(i + 1).drop_last() == m.take(i as int));
        let line = replace_line(&lines[i], &p, &r);
        append_chars(&mut out, &line);
        out.push('\n');
        i = i + 1;
    }
    assert(m.take(i as int) == m);
    Ok(string_of(&out))
}

} // verus!
