//! The reader: a text held as characters, and a position in it.

use crate::detector::Detector;
use crate::model::{
    lemma_line_start, lemma_newlines_grow, lemma_same_line, line_count, line_end, line_start,
    DetectorState, ReaderState,
};
use vstd::prelude::*;

verus! {

/// `String::push` puts the character at the end of the string and leaves
/// what stood before it as it was.
pub assume_specification[ String::push ](s: &mut String, ch: char)
    ensures
        final(s)@ == old(s)@.push(ch),
;

/// A cursor over the characters of a text. It reads forward one
/// character at a time, steps back over what it has read, and keeps the
/// line and the column of where it stands.
#[derive(Debug)]
pub struct TextReader {
    len: usize,
    text: Vec<char>,
    position: usize,
    line: usize,
    cursor: usize,
}

impl View for TextReader {
    type V = ReaderState;

    closed spec fn view(&self) -> ReaderState {
        ReaderState {
            text: self.text@,
            position: self.position as nat,
            line: self.line as nat,
            column: self.cursor as nat,
        }
    }
}

impl TextReader {
    /// The stored length is that of the stored text.
    pub closed spec fn len_kept(&self) -> bool {
        self.len == self.text.len()
    }

    /// The reader is in a state that reads from the start lead to, over
    /// a text whose line numbers fit the machine.
    pub open spec fn wf(&self) -> bool {
        &&& self.len_kept()
        &&& self@.valid()
        &&& line_count(self@.text) <= usize::MAX
    }

    /// A reader at the start of `text`.
    pub fn new(text: &str) -> (reader: TextReader)
        requires
            line_count(text@) <= usize::MAX,
        ensures
            reader.wf(),
            reader@ == ReaderState::start(text@),
    {
        let mut chars: Vec<char> = Vec::new();
        for ch in it: text.chars()
            invariant
                it.seq() == text@,
                chars@ == it.seq().take(it.index()),
        {
            chars.push(ch);
        }
        assert(chars@ == text@);
        let len = chars.len();
        TextReader { text: chars, position: 0, line: 1, len, cursor: 0 }
    }

    /// Whether a character is left to read.
    pub fn has_next(&self) -> (more: bool)
        requires
            self.wf(),
        ensures
            more == self@.has_next(),
    {
        self.position < self.len
    }

    /// The character read last; nothing at the start of the text.
    pub fn peek(&self) -> (ch: Option<char>)
        requires
            self.wf(),
        ensures
            ch == self@.previous(),
    {
        if self.position == 0 {
            return None;
        }
        Some(self.text[self.position - 1])
    }

    /// Reads one character; at the end of the text it gives nothing and
    /// changes nothing.
    pub fn next(&mut self) -> (ch: Option<char>)
        requires
            old(self).wf(),
        ensures
            final(self).wf(),
            ch == old(self)@.upcoming(),
            final(self)@ == old(self)@.after_read(),
    {
        if !self.has_next() {
            return None;
        }
        let ch = self.text[self.position];
        proof {
            lemma_newlines_grow(self@.text, self.position + 1, self.len as int);
            lemma_line_start(self@.text, self.position as int);
        }
        self.position += 1;
        self.cursor += 1;

        if ch == '\n' {
            self.line += 1;
            self.cursor = 0;
        }

        Some(ch)
    }

    /// Index of the next unread character.
    pub fn position(&self) -> (position: usize)
        ensures
            position == self@.position,
    {
        self.position
    }

    /// Number of the current line, counted from 1.
    pub fn line(&self) -> (line: usize)
        ensures
            line == self@.line,
    {
        self.line
    }

    /// Characters read since the last newline.
    pub fn cursor(&self) -> (column: usize)
        ensures
            column == self@.column,
    {
        self.cursor
    }

    /// Number of characters in the text.
    pub fn len(&self) -> (len: usize)
        requires
            self.wf(),
        ensures
            len == self@.text.len(),
    {
        self.len
    }

    /// Undoes one read; at the start of the text it changes nothing.
    pub fn back(&mut self) -> (reader: &mut TextReader)
        requires
            old(self).wf(),
        ensures
            reader.wf(),
            reader@ == old(self)@.after_back(),
            *final(self) == *final(reader),
    {
        if self.position == 0 {
            return self;
        }
        let ch = self.text[self.position - 1];
        proof {
            lemma_line_start(self@.text, self.position as int);
        }
        if ch != '\n' {
            self.position -= 1;
            self.cursor -= 1;
            return self;
        }
        self.position -= 1;
        self.line -= 1;

        let mut start: usize = self.position;
        while start > 0 && self.text[start - 1] != '\n'
            invariant
                start <= self.position <= self.text.len(),
                forall|i: int| start <= i < self.position ==> self.text@[i] != '\n',
            decreases start,
        {
            start -= 1;
        }
        proof {
            lemma_same_line(self.text@, start as int, self.position as int);
        }
        self.cursor = self.position - start;
        self
    }

    /// The text of the line that the reader stands on, without its
    /// newline, or nothing where that line is empty: in an empty text,
    /// between two newlines, and after a newline that ends the text.
    /// The reader looks for both ends of the line by stepping back and
    /// reading on, and is put back where it stood.
    pub fn this_line(&mut self) -> (text: Option<String>)
        requires
            old(self).wf(),
        ensures
            final(self).wf(),
            final(self)@ == old(self)@,
            text is Some <==> old(self)@.line_text() is Some,
            text is Some ==> text->0@ == old(self)@.line_text()->0,
    {
        let position = self.position;
        let cursor = self.cursor;
        let line = self.line;

        loop
            invariant
                self.wf(),
                self@.text == old(self)@.text,
                self.position <= position,
                line_start(self@.text, self.position as int) == line_start(
                    self@.text,
                    position as int,
                ),
            ensures
                self.wf(),
                self@.text == old(self)@.text,
                self.position == line_start(self@.text, position as int),
            decreases self.position,
        {
            proof {
                lemma_line_start(self@.text, self.position as int);
            }
            if self.position == 0 || self.cursor == 0 {
                break;
            }
            match self.back().peek() {
                Some('\n') => break,
                _ => {},
            }
        }

        let start_position = self.position;

        while self.has_next()
            invariant
                self.wf(),
                self@.text == old(self)@.text,
                start_position <= self.position <= self.len,
                line_end(self@.text, self.position as int) == line_end(
                    self@.text,
                    start_position as int,
                ),
            ensures
                self.wf(),
                self@.text == old(self)@.text,
                start_position <= self.position <= self.len,
                self.position == line_end(self@.text, start_position as int),
            decreases self.len - self.position,
        {
            match self.next() {
                Some('\n') => {
                    self.back();
                    break;
                },
                _ => {},
            }
        }

        let end_position = self.position;
        proof {
            lemma_line_start(self@.text, position as int);
            lemma_same_line(self@.text, start_position as int, position as int);
        }
        self.position = position;
        self.cursor = cursor;
        self.line = line;

        if start_position == end_position {
            return None;
        }
        let mut line_text = String::new();
        let mut ix: usize = start_position;
        while ix < end_position
            invariant
                start_position <= ix <= end_position <= self.text.len(),
                line_text@ == self.text@.subrange(start_position as int, ix as int),
            decreases end_position - ix,
        {
            line_text.push(self.text[ix]);
            ix += 1;
        }
        Some(line_text)
    }

    /// A probe on this reader that expects nothing yet. The reader is
    /// lent to the probe until the probe is gone.
    pub fn detector(&mut self) -> (detector: Detector<'_>)
        ensures
            detector@ == DetectorState::fresh(old(self)@),
            *detector.reader == *old(self),
            *final(detector.reader) == *final(self),
    {
        Detector::new(self)
    }

    /// Puts the reader back at the start of its text.
    pub fn reset(&mut self) -> (reader: &mut TextReader)
        requires
            old(self).wf(),
        ensures
            reader.wf(),
            reader@ == ReaderState::start(old(self)@.text),
            *final(self) == *final(reader),
    {
        self.line = 1;
        self.position = 0;
        self.cursor = 0;
        self
    }
}

} // verus!
