use vstd::prelude::*;
use vstd::string::StringExecFns;

use crate::error::TextError;
use crate::report::{decimal, push_decimal, report_text, Section};
use crate::rewrite::{replace, rewritten};
use crate::scan::{count, count_matching, matching_lines, search};
use crate::stats::{frequencies, longest_of, stats, text_words};
use crate::text::lines_of;

verus! {

/// An operation on a file's text.
#[derive(Debug, Clone, Copy, PartialEq, Eq, Structural)]
pub enum Command {
    /// List the numbers of the lines that hold a pattern.
    Search,
    /// Count the lines that hold a pattern.
    Count,
    /// Replace a pattern on every line and write the file back.
    Replace,
    /// Report word statistics.
    Stats,
}

/// What an operation produced: the text to show, and the new content of
/// the file when the operation rewrites it.
pub struct Outcome {
    /// The text to show, line by line.
    pub output: String,
    /// The new content of the file, for a replace.
    pub rewrite: Option<String>,
}

/// One line of text for each line number found.
pub open spec fn found_lines_text(m: Seq<int>) -> Seq<char>
    decreases m.len(),
{
    if m.len() == 0 {
        seq![]
    } else {
        found_lines_text(m.drop_last()) + "   found at line "@ + decimal(m.last() as nat) + "\n"@
    }
}

/// What a search shows: the pattern, then the lines where it was found.
pub open spec fn search_text(p: Seq<char>, m: Seq<int>) -> Seq<char> {
    p + ":\n"@ + found_lines_text(m)
}

/// What a count shows.
pub open spec fn count_text(p: Seq<char>, n: nat) -> Seq<char> {
    p + " pattern present "@ + decimal(n) + " times\n"@
}

/// What a replace shows once the file has been written.
pub open spec fn replace_text(p: Seq<char>, r: Seq<char>) -> Seq<char> {
    p + " pattern replaced with "@ + r + "\n"@
}

/// The outcome holds exactly `text` to show and nothing to write.
pub open spec fn shows(o: Outcome, text: Seq<char>) -> bool {
    o.output@ == text && o.rewrite is None
}

/// The error that the arguments alone decide, before any text is read: a
/// missing pattern, or a replace without a replacement.
pub fn argument_error(command: Command, arg1: Option<&str>, arg2: Option<&str>) -> (r: Option<
    TextError,
>)
    ensures
        command != Command::Stats && arg1 is None ==> r == Some(TextError::PatternRequired),
        command == Command::Replace && arg1 is Some && arg2 is None ==> r == Some(
            TextError::ReplacementRequired,
        ),
        command == Command::Stats || (arg1 is Some && (command != Command::Replace || arg2 is Some))
            ==> r is None,
{
    match command {
        Command::Stats => None,
        _ => {
            if arg1.is_none() {
                Some(TextError::PatternRequired)
            } else if command == Command::Replace && arg2.is_none() {
                Some(TextError::ReplacementRequired)
            } else {
                None
            }
        },
    }
}

/// Runs `command` on the text `content` of a file, with the optional first
/// argument (the pattern) and second argument (the replacement).
pub fn run(command: Command, content: &str, arg1: Option<&str>, arg2: Option<&str>) -> (r: Result<
    Outcome,
    TextError,
>)
    ensures
        command != Command::Stats && arg1 is None ==> r == Err::<Outcome, TextError>(
            TextError::PatternRequired,
        ),
        command == Command::Search && arg1 is Some ==> {
            let m = matching_lines(lines_of(content@), arg1->0@);
            &&& m.len() == 0 ==> r == Err::<Outcome, TextError>(TextError::NoMatch)
            &&& m.len() > 0 ==> (r matches Ok(o) && shows(o, search_text(arg1->0@, m)))
        },
        command == Command::Count && arg1 is Some ==> (r matches Ok(o) && shows(
            o,
            count_text(arg1->0@, count_matching(lines_of(content@), arg1->0@)),
        )),
        command == Command::Replace && arg1 is Some && arg2 is None ==> r == Err::<
            Outcome,
            TextError,
        >(TextError::ReplacementRequired),
        command == Command::Replace && arg1 is Some && arg2 is Some ==> (r matches Ok(o)
            && o.output@ == replace_text(arg1->0@, arg2->0@) && (o.rewrite matches Some(t) && t@
            == rewritten(content@, arg1->0@, arg2->0@))),
        command == Command::Stats ==> (r matches Ok(o) && shows(
            o,
            report_text(
                frequencies(text_words(content@)),
                text_words(content@).len(),
                longest_of(text_words(content@)),
                Section::All,
            ),
        )),
{
    match command {
        Command::Search => {
            let found = match search(content, arg1) {
                Ok(v) => v,
                Err(e) => return Err(e),
            };
            let ghost m = matching_lines(lines_of(content@), arg1->0@);
            let mut out = String::new();
            match arg1 {
                Some(p) => out.append(p),
                None => {},
            }
            out.append(":\n");
            let ghost start = out@;
            let mut i: usize = 0;
            assert(m.take(0) == Seq::<int>::empty());
            assert(out@ == start + found_lines_text(m.take(0)));
            while i < found.len()
                invariant
                    i <= found.len(),
                    found@.len() == m.len(),
                    forall|k: int| 0 <= k < found@.len() ==> found@[k] as int == #[trigger] m[k],
                    out@ == start + found_lines_text(m.take(i as int)),
                decreases found.len() - i,
            {
                assert(m.take(i + 1).drop_last() == m.take(i as int));
                assert(m.take(i + 1).last() == found@[i as int] as int);
                out.append("   found at line ");
                push_decimal(&mut out, found[i]);
                out.append("\n");
                i = i + 1;
                assert(out@ =~= start + found_lines_text(m.take(i as int)));
            }
            assert(m.take(i as int) == m);
            assert(out@ =~= search_text(arg1->0@, m));
            Ok(Outcome { output: out, rewrite: None })
        },
        Command::Count => {
            let n = match count(content, arg1) {
                Ok(n) => n,
                Err(e) => return Err(e),
            };
            let mut out = String::new();
            match arg1 {
                Some(p) => out.append(p),
                None => {},
            }
            out.append(" pattern present ");
            push_decimal(&mut out, n);
            out.append(" times\n");
            assert(out@ =~= count_text(arg1->0@, n as nat));
            Ok(Outcome { output: out, rewrite: None })
        },
        Command::Replace => {
            let new_content = match replace(content, arg1, arg2) {
                Ok(t) => t,
                Err(e) => return Err(e),
            };
            let mut out = String::new();
            match arg1 {
                Some(p) => out.append(p),
                None => {},
            }
            out.append(" pattern replaced with ");
            match arg2 {
                Some(r) => out.append(r),
                None => {},
            }
            out.append("\n");
            assert(out@ =~= replace_text(arg1->0@, arg2->0@));
            Ok(Outcome { output: out, rewrite: Some(new_content) })
        },
        Command::Stats => {
            let s = stats(content);
            let out = s.render(Section::All);
            Ok(Outcome { output: out, rewrite: None })
        },
    }
}

} // verus!
