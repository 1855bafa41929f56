use vstd::prelude::*;

use crate::error::TextError;
use crate::text::{chars_of, contains, contains_exec, lines_of, split_lines};

verus! {

/// The test that a line holds `p`.
pub open spec fn holds(p: Seq<char>) -> spec_fn(Seq<char>) -> bool {
    |l: Seq<char>| contains(l, p)
}

/// The number of lines of `lines` that hold `p`.
pub open spec fn count_matching(lines: Seq<Seq<char>>, p: Seq<char>) -> nat {
    lines.filter(holds(p)).len()
}

/// The 1-based numbers of the lines of `lines` that hold `p`, ascending.
pub open spec fn matching_lines(lines: Seq<Seq<char>>, p: Seq<char>) -> Seq<int>
    decreases lines.len(),
{
    if lines.len() == 0 {
        seq![]
    } else {
        let before = matching_lines(lines.drop_last(), p);
        if contains(lines.last(), p) {
            before.push(lines.len() as int)
        } else {
            before
        }
    }
}

/// The characters of the pattern, or `PatternRequired` when none is given.
pub fn pattern_chars(pattern: Option<&str>) -> (r: Result<Vec<char>, TextError>)
    ensures
        pattern is None ==> r == Err::<Vec<char>, TextError>(TextError::PatternRequired),
        pattern is Some ==> (r matches Ok(v) && v@ == pattern->0@),
{
    match pattern {
        Some(p) => Ok(chars_of(p)),
        None => Err(TextError::PatternRequired),
    }
}

/// Counts the lines of `content` that hold the pattern. A count of zero is
/// a success.
pub fn count(content: &str, pattern: Option<&str>) -> (r: Result<usize, TextError>)
    ensures
        pattern is None ==> r == Err::<usize, TextError>(TextError::PatternRequired),
        pattern is Some ==> (r matches Ok(n) && n == count_matching(
            lines_of(content@),
            pattern->0@,
        )),
{
    let p = match pattern_chars(pattern) {
        Ok(p) => p,
        Err(e) => return Err(e),
    };
    let s = chars_of(content);
    let lines = split_lines(&s);
    let ghost ls = lines_of(content@);
    let mut n: usize = 0;
    let mut i: usize = 0;
    proof {
        reveal(Seq::filter);
        assert(ls.take(0) == Seq::<Seq<char>>::empty());
    }
    while i < lines.len()
        invariant
            i <= lines.len(),
            lines@.len() == ls.len(),
            forall|k: int| 0 <= k < lines@.len() ==> #[trigger] lines@[k]@ == ls[k],
            n == ls.take(i as int).filter(holds(p@)).len(),
            n <= i,
        decreases lines.len() - i,
    {
        proof {
            reveal(Seq::filter);
            assert(ls.take(i + 1).drop_last() == ls.take(i as int));
            assert(ls.take(i + 1).last() == lines@[i as int]@);
        }
        let hit = contains_exec(&lines[i], &p);
        assert(hit == holds(p@)(ls.take(i + 1).last()));
        if hit {
            n = n + 1;
        }
        i = i + 1;
    }
    assert(ls.take(i as int) == ls);
    Ok(n)
}

/// The 1-based numbers of the lines of `content` that hold the pattern, in
/// ascending order. Finding none is the error `NoMatch`.
pub fn search(content: &str, pattern: Option<&str>) -> (r: Result<Vec<usize>, TextError>)
    ensures
        pattern is None ==> r == Err::<Vec<usize>, TextError>(TextError::PatternRequired),
        pattern is Some && matching_lines(lines_of(content@), pattern->0@).len() == 0
            ==> r == Err::<Vec<usize>, TextError>(TextError::NoMatch),
        pattern is Some && matching_lines(lines_of(content@), pattern->0@).len() > 0
            ==> (r matches Ok(v) && v@.len() == matching_lines(lines_of(content@), pattern->0@).len()
            && forall|k: int|
            0 <= k < v@.len() ==> v@[k] as int == #[trigger] matching_lines(
                lines_of(content@),
                pattern->0@,
            )[k]),
{
    let p = match pattern_chars(pattern) {
        Ok(p) => p,
        Err(e) => return Err(e),
    };
    let s = chars_of(content);
    let lines = split_lines(&s);
    let ghost ls = lines_of(content@);
    let mut found: Vec<usize> = Vec::new();
    let mut i: usize = 0;
    assert(ls.take(0) == Seq::<Seq<char>>::empty());
    while i < lines.len()
        invariant
            i <= lines.len(),
            lines@.len() == ls.len(),
            forall|k: int| 0 <= k < lines@.len() ==> #[trigger] lines@[k]@ == ls[k],
            found@.len() == matching_lines(ls.take(i as int), p@).len(),
            forall|k: int|
                0 <= k < found@.len() ==> found@[k] as int == #[trigger] matching_lines(
                    ls.take(i as int),
                    p@,
                )[k],
        decreases lines.len() - i,
    {
        assert(ls.take(i + 1).drop_last() == ls.take(i as int));
        if contains_exec(&lines[i], &p) {
            found.push(i + 1);
        }
        i = i + 1;
    }
    assert(ls.take(i as int) == ls);
    if found.len() == 0 {
        Err(TextError::NoMatch)
    } else {
        Ok(found)
    }
}

} // verus!
