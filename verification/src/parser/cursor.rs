//! A cursor over the classified lines of a text.

use crate::error::{OrgError, OrgErrorView};
use crate::parser::line::{classify, classify_all, parse_line_chars, Line, LineView};
use crate::text::{chars_of, chars_of_all, lines_of, split_lines, strs_view, vecs_view};
use vstd::prelude::*;

verus! {

/// A line of the text with its number, counted from 0.
pub type RawLine<'t> = (usize, &'t [char]);

/// Classifies a numbered line and keeps its number.
pub fn raw_line_to_line(raw_line: RawLine<'_>, possible_states: &Vec<Vec<char>>) -> (r: (
    usize,
    Line,
))
    ensures
        r.0 == raw_line.0,
        r.1@ == classify(raw_line.1@, vecs_view(possible_states@)),
{
    let (line_num, line) = raw_line;
    (line_num, parse_line_chars(line, possible_states))
}

/// A reader that goes through the classified lines of a text one by one
/// and shows the line it stands on.
pub struct OrgCursor {
    current_line: Option<Line>,
    current_line_number: Option<usize>,
    lines: Vec<Vec<char>>,
    next: usize,
    labels: Vec<Vec<char>>,
}

impl OrgCursor {
    /// All the lines of the text, classified.
    pub closed spec fn lines(&self) -> Seq<LineView> {
        classify_all(vecs_view(self.lines@), vecs_view(self.labels@))
    }

    /// The number of the line that the cursor stands on; the number of
    /// lines once it has gone through all of them.
    pub closed spec fn position(&self) -> nat {
        match self.current_line {
            Some(_) => (self.next - 1) as nat,
            None => self.lines@.len(),
        }
    }

    /// What the cursor holds agrees with where it stands.
    pub closed spec fn wf(&self) -> bool {
        &&& self.next <= self.lines@.len()
        &&& match self.current_line {
            Some(line) => self.next >= 1 && line@ == self.lines()[self.next - 1]
                && self.current_line_number == Some((self.next - 1) as usize),
            None => self.next == self.lines@.len() && self.current_line_number is None,
        }
    }

    /// The lines from the one that the cursor stands on to the last.
    pub open spec fn remaining(&self) -> Seq<LineView> {
        self.lines().skip(self.position() as int)
    }

    /// A cursor never stands behind the end.
    pub proof fn lemma_position(&self)
        requires
            self.wf(),
        ensures
            self.position() <= self.lines().len(),
    {
    }

    /// A cursor on the first line of `text`, classifying with `labels` as
    /// the status keywords. A text without lines has no first line, and
    /// that is an error.
    pub fn new(text: &str, labels: &[&str]) -> (r: Result<OrgCursor, OrgError>)
        ensures
            match r {
                Ok(cursor) => cursor.wf() && text@.len() > 0 && cursor.lines() == classify_all(
                    lines_of(text@),
                    strs_view(labels@),
                ) && cursor.position() == 0,
                Err(e) => text@.len() == 0 && e@ == OrgErrorView::ParseError(
                    Some(0),
                    "cannot parse empty text"@,
                ),
            },
    {
        let chars = chars_of(text);
        let pieces = split_lines(chars.as_slice());
        let labels = chars_of_all(labels);
        let mut lines: Vec<Vec<char>> = Vec::new();
        let mut i: usize = 0;
        while i < pieces.len()
            invariant
                i <= pieces@.len(),
                lines@.len() == i,
                forall|j: int| 0 <= j < i ==> (#[trigger] lines@[j])@ == pieces@[j]@,
            decreases pieces@.len() - i,
        {
            lines.push(vstd::slice::slice_to_vec(pieces[i]));
            i += 1;
        }
        proof {
            assert(vecs_view(lines@) =~= lines_of(text@));
        }
        if lines.len() == 0 {
            return Err(OrgError::parse_error(0, "cannot parse empty text"));
        }
        let (number, line) = raw_line_to_line((0, lines[0].as_slice()), &labels);
        Ok(
            OrgCursor {
                current_line: Some(line),
                current_line_number: Some(number),
                lines,
                next: 1,
                labels,
            },
        )
    }

    /// Steps to the next line and returns the line that the cursor stood
    /// on; `None`, and no step, once it has gone through all the lines.
    pub fn advance(&mut self) -> (r: Option<Line>)
        requires
            old(self).wf(),
        ensures
            final(self).wf(),
            final(self).lines() == old(self).lines(),
            match r {
                Some(line) => old(self).position() < old(self).lines().len() && line@ == old(
                    self,
                ).lines()[old(self).position() as int] && final(self).position() == old(
                    self,
                ).position() + 1,
                None => old(self).position() == old(self).lines().len() && final(self).position()
                    == old(self).position(),
            },
    {
        let last_line = self.current_line.take();
        if self.next < self.lines.len() {
            let (number, line) = raw_line_to_line(
                (self.next, self.lines[self.next].as_slice()),
                &self.labels,
            );
            self.current_line_number = Some(number);
            self.current_line = Some(line);
            self.next = self.next + 1;
        } else {
            self.current_line_number = None;
            self.current_line = None;
        }
        last_line
    }

    /// The line that the cursor stands on, if any is left.
    pub fn current_line(&self) -> (r: Option<&Line>)
        requires
            self.wf(),
        ensures
            match r {
                Some(line) => self.position() < self.lines().len() && line@
                    == self.lines()[self.position() as int],
                None => self.position() == self.lines().len(),
            },
    {
        self.current_line.as_ref()
    }

    /// The number of the line that the cursor stands on, counted from 0,
    /// if any is left.
    pub fn current_line_number(&self) -> (r: Option<usize>)
        requires
            self.wf(),
        ensures
            match r {
                Some(number) => self.position() < self.lines().len() && number
                    == self.position(),
                None => self.position() == self.lines().len(),
            },
    {
        self.current_line_number
    }
}

} // verus!
