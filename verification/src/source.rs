//! The source text, held so that a character is read in constant time.

use crate::classify::admits;
use crate::grammar::{occurrences, run_end, Run};
use vstd::prelude::*;

verus! {

/// A source text together with its characters, decoded once.
///
/// Positions count characters, not bytes.
pub struct Source<'a> {
    text: &'a str,
    chars: Vec<char>,
}

impl<'a> View for Source<'a> {
    type V = Seq<char>;

    closed spec fn view(&self) -> Seq<char> {
        self.text@
    }
}

impl<'a> Source<'a> {
    #[verifier::type_invariant]
    spec fn decoded(&self) -> bool {
        self.chars@ == self.text@
    }

    /// Decodes `text`.
    pub fn new(text: &'a str) -> (source: Self)
        ensures
            source@ == text@,
    {
        broadcast use vstd::string::group_string_axioms;

        let mut chars: Vec<char> = Vec::new();
        for c in it: text.chars()
            invariant
                it.seq() == text@,
                chars@ == text@.take(it.index() as int),
        {
            chars.push(c);
        }
        assert(text@.take(text@.len() as int) == text@);
        Source { text, chars }
    }

    /// The text itself.
    pub fn text(&self) -> (text: &'a str)
        ensures
            text@ == self@,
    {
        self.text
    }

    /// The number of characters of the text.
    pub fn len(&self) -> (n: usize)
        ensures
            n == self@.len(),
    {
        proof {
            use_type_invariant(self);
        }
        self.chars.len()
    }

    /// The character at position `pos`.
    pub fn at(&self, pos: usize) -> (c: char)
        requires
            pos < self@.len(),
        ensures
            c == self@[pos as int],
    {
        proof {
            use_type_invariant(self);
        }
        self.chars[pos]
    }

    /// The position just past the longest run of kind `run` that starts at
    /// `from`.
    pub fn run_end(&self, from: usize, run: Run) -> (end: usize)
        requires
            from <= self@.len(),
        ensures
            end == run_end(self@, from as int, run),
            from <= end <= self@.len(),
    {
        let n = self.len();
        let mut pos = from;
        while pos < n && admits(run, self.at(pos))
            invariant
                n == self@.len(),
                from <= pos <= n,
                run_end(self@, pos as int, run) == run_end(self@, from as int, run),
            decreases n - pos,
        {
            pos += 1;
        }
        pos
    }

    /// How often `c` occurs from position `from` up to, not including, `to`.
    pub fn count(&self, c: char, from: usize, to: usize) -> (n: usize)
        requires
            from <= to <= self@.len(),
        ensures
            n == occurrences(self@, c, to as int) - occurrences(self@, c, from as int),
            n <= to - from,
    {
        let mut n: usize = 0;
        let mut pos = from;
        while pos < to
            invariant
                from <= pos <= to <= self@.len(),
                n == occurrences(self@, c, pos as int) - occurrences(self@, c, from as int),
                n <= pos - from,
            decreases to - pos,
        {
            if self.at(pos) == c {
                n += 1;
            }
            pos += 1;
        }
        n
    }
}

} // verus!
