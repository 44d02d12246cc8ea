//! The probe for a run of characters at the position of a reader.

use crate::model::{lemma_backs, lemma_read_valid, lemma_rollback, DetectorState, ReaderState};
use crate::textreader::TextReader;
use vstd::prelude::*;

verus! {

/// A probe for a run of characters at the position of a reader. It
/// holds the reader for as long as it lives, so no second probe can
/// move the reader meanwhile.
#[derive(Debug)]
pub struct Detector<'a> {
    /// The reader that is probed.
    pub reader: &'a mut TextReader,
    /// The characters that are expected to come next, in order.
    pub compares: Vec<char>,
    /// Length of the last match; 0 before the first.
    pub last_len: usize,
}

impl<'a> View for Detector<'a> {
    type V = DetectorState;

    open spec fn view(&self) -> DetectorState {
        DetectorState {
            reader: (*self.reader)@,
            expected: self.compares@,
            matched_len: self.last_len as nat,
        }
    }
}

impl<'a> Detector<'a> {
    /// A probe on `reader` that expects nothing yet. What the probe
    /// does to its reader is done to `reader`.
    pub fn new(reader: &'a mut TextReader) -> (detector: Self)
        ensures
            detector@ == DetectorState::fresh(old(reader)@),
            *detector.reader == *old(reader),
            *final(detector.reader) == *final(reader),
    {
        Self { reader, compares: Vec::new(), last_len: 0 }
    }

    /// Expects `ch` after what is expected already.
    pub fn next_char(&mut self, ch: char) -> (detector: &mut Self)
        ensures
            detector@ == old(self)@.expecting(seq![ch]),
            *detector.reader == *old(self).reader,
            *final(detector.reader) == *final(old(self).reader),
            *final(self) == *final(detector),
    {
        self.compares.push(ch);
        assert(self.compares@ == old(self).compares@ + seq![ch]);
        self
    }

    /// Expects the characters of `text`, in order, after what is
    /// expected already.
    pub fn next_text(&mut self, text: &str) -> (detector: &mut Self)
        ensures
            detector@ == old(self)@.expecting(text@),
            *detector.reader == *old(self).reader,
            *final(detector.reader) == *final(old(self).reader),
            *final(self) == *final(detector),
    {
        for ch in it: text.chars()
            invariant
                it.seq() == text@,
                self@ == old(self)@.expecting(it.seq().take(it.index())),
                *self.reader == *old(self).reader,
                *final(self.reader) == *final(old(self).reader),
        {
            assert(self.compares@ + seq![ch] == old(self).compares@ + text@.take(it.index() + 1));
            self.next_char(ch);
        }
        assert(text@.take(text@.len() as int) == text@);
        self
    }

    /// Whether the characters that the reader would read next are those
    /// expected; the end of the text may end them. If they are, the
    /// reader is left just past the match and the length of the match is
    /// kept; if not, reader and kept length are left as they were.
    pub fn yes(&mut self) -> (matched: bool)
        requires
            old(self).reader.wf(),
        ensures
            matched == old(self)@.matches(),
            final(self)@ == old(self)@.after_probe(),
            final(self).reader.wf(),
            *final(final(self).reader) == *final(old(self).reader),
    {
        self.detect()
    }

    /// Whether the characters that the reader would read next are not
    /// those expected. It leaves reader and probe as `yes` does.
    pub fn no(&mut self) -> (unmatched: bool)
        requires
            old(self).reader.wf(),
        ensures
            unmatched == !old(self)@.matches(),
            final(self)@ == old(self)@.after_probe(),
            final(self).reader.wf(),
            *final(final(self).reader) == *final(old(self).reader),
    {
        !self.detect()
    }

    /// Steps the reader back by the length of the last match, or to the
    /// start of the text where that is nearer.
    pub fn rollback(&mut self) -> (detector: &mut Self)
        requires
            old(self).reader.wf(),
        ensures
            detector@ == old(self)@.after_rollback(),
            detector@.reader == ReaderState::at(
                old(self)@.reader.text,
                if old(self)@.matched_len <= old(self)@.reader.position {
                    (old(self)@.reader.position - old(self)@.matched_len) as nat
                } else {
                    0
                },
            ),
            detector.reader.wf(),
            *final(detector.reader) == *final(old(self).reader),
            *final(self) == *final(detector),
    {
        proof {
            lemma_rollback(self@);
        }
        let count = self.last_len;
        self.restore(count)
    }

    /// Reads as long as the reader gives what is expected, one read
    /// more where the text goes on, and undoes that read; at the first
    /// other character, or where the text ends too soon, undoes every
    /// read it made.
    fn detect(&mut self) -> (matched: bool)
        requires
            old(self).reader.wf(),
        ensures
            matched == old(self)@.matches(),
            final(self)@ == old(self)@.after_probe(),
            final(self).reader.wf(),
            *final(final(self).reader) == *final(old(self).reader),
    {
        let ghost before = self@;
        let mut ix: usize = 0;
        let len = self.compares.len();

        while self.reader.has_next()
            invariant
                before == old(self)@,
                before.reader.valid(),
                self.reader.wf(),
                self@.expected == before.expected,
                self@.matched_len == before.matched_len,
                *final(self.reader) == *final(old(self).reader),
                len == before.expected.len(),
                ix <= len,
                before.reader.position + ix <= before.reader.text.len(),
                self@.reader == ReaderState::at(
                    before.reader.text,
                    (before.reader.position + ix) as nat,
                ),
                before.reader.text.subrange(
                    before.reader.position as int,
                    before.reader.position + ix,
                ) == before.expected.take(ix as int),
            decreases before.reader.text.len() - before.reader.position - ix,
        {
            proof {
                lemma_read_valid(self@.reader);
                lemma_backs(self@.reader.after_read(), (ix + 1) as nat);
            }
            match self.reader.next() {
                Some(ch) => {
                    if ix >= len {
                        self.reader.back();
                        self.last_len = len;
                        assert(before.expected.take(ix as int) == before.expected);
                        return true;
                    }
                    let compare = self.compares[ix];
                    if ch != compare {
                        self.restore(ix + 1);
                        return false;
                    }
                    ix += 1;
                },
                None => {
                    self.restore(ix);
                    return false;
                },
            }
        }
        let same = ix == len;
        if !same {
            proof {
                lemma_backs(self@.reader, ix as nat);
            }
            self.restore(ix);
        } else {
            assert(before.expected.take(ix as int) == before.expected);
            self.last_len = len;
        }
        same
    }

    /// Steps the reader back `count` times.
    fn restore(&mut self, count: usize) -> (detector: &mut Self)
        requires
            old(self).reader.wf(),
        ensures
            detector@.reader == old(self)@.reader.after_backs(count as nat),
            detector@.expected == old(self)@.expected,
            detector@.matched_len == old(self)@.matched_len,
            detector.reader.wf(),
            *final(detector.reader) == *final(old(self).reader),
            *final(self) == *final(detector),
    {
        if count == 0 {
            return self;
        }
        for done in 0..count
            invariant
                self.reader.wf(),
                self@.reader == old(self)@.reader.after_backs(done as nat),
                self@.expected == old(self)@.expected,
                self@.matched_len == old(self)@.matched_len,
                *final(self.reader) == *final(old(self).reader),
        {
            self.reader.back();
        }
        self
    }
}

} // verus!
