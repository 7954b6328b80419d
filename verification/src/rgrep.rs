use std::sync::Arc;
use vstd::prelude::*;

verus! {

/// What is done with the lines that match.
#[derive(Clone, Copy, Debug, PartialEq, Eq)]
pub enum OutputMode {
    Print,
    SortAndPrint,
    Count,
}

/// A search: the files to read, the text to look for, and what to do with the lines
/// that hold it.
pub struct Options {
    pub files: Vec<Arc<String>>,
    pub pattern: String,
    pub output_mode: OutputMode,
}

/// A line of a file, with the name of the file and the number of the line.
pub struct MatchedLine {
    pub file_name: Arc<String>,
    pub number: usize,
    pub line: String,
}

/// `needle` occurs in `hay` as a run of consecutive characters.
pub open spec fn occurs_in(needle: Seq<char>, hay: Seq<char>) -> bool {
    exists|i: int|
        0 <= i && i + needle.len() <= hay.len() && #[trigger] hay.subrange(i, i + needle.len())
            == needle
}

/// The predicate that picks the lines in which `pattern` occurs.
pub open spec fn holds(pattern: Seq<char>) -> spec_fn(MatchedLine) -> bool {
    |l: MatchedLine| occurs_in(pattern, l.line@)
}

/// `str::contains` with a string slice as the pattern. Trusted: it returns `true`
/// exactly when the characters of `pattern` occur in `line` one after the other.
#[verifier::external_body]
fn contains_str(line: &str, pattern: &str) -> (r: bool)
    ensures
        r == occurs_in(pattern@, line@),
{
    line.contains(pattern)
}

impl Options {
    /// Tells whether the search keeps `line`: whether its text holds the pattern.
    pub fn keeps(&self, line: &MatchedLine) -> (r: bool)
        ensures
            r == occurs_in(self.pattern@, line.line@),
    {
        contains_str(line.line.as_str(), self.pattern.as_str())
    }
}

/// The lines of `lines` that the search keeps, in their order.
pub fn filter_lines(options: &Options, lines: Vec<MatchedLine>) -> (r: Vec<MatchedLine>)
    ensures
        r@ == lines@.filter(holds(options.pattern@)),
{
    let mut kept: Vec<MatchedLine> = Vec::new();
    let ghost all = lines@;
    for matched_line in it: lines
        invariant
            it.seq() == all,
            kept@ == all.take(it.index() as int).filter(holds(options.pattern@)),
    {
        proof {
            let next = all.take(it.index() + 1);
            assert(next.drop_last() =~= all.take(it.index() as int));
            assert(next.last() == matched_line);
            reveal(Seq::filter);
        }
        if options.keeps(&matched_line) {
            kept.push(matched_line);
        }
    }
    proof {
        assert(all.take(all.len() as int) =~= all);
    }
    kept
}

} // verus!
