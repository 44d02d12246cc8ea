//! What a reader and a probe are as plain values, what each of their
//! steps does to those values, and what holds of the steps together.

use vstd::prelude::*;

verus! {

/// How many of the first `k` characters of `text` are newlines.
pub open spec fn newlines_before(text: Seq<char>, k: int) -> nat
    decreases k,
{
    if k <= 0 {
        0
    } else if text[k - 1] == '\n' {
        (newlines_before(text, k - 1) + 1) as nat
    } else {
        newlines_before(text, k - 1)
    }
}

/// The index at which the line around index `k` begins: just after the
/// nearest newline before `k`, or 0 where there is none.
pub open spec fn line_start(text: Seq<char>, k: int) -> int
    decreases k,
{
    if k <= 0 {
        0
    } else if text[k - 1] == '\n' {
        k
    } else {
        line_start(text, k - 1)
    }
}

/// The index at which the line around index `k` ends: that of the first
/// newline at or after `k`, or the length of `text` where there is none.
pub open spec fn line_end(text: Seq<char>, k: int) -> int
    decreases text.len() - k,
{
    if k >= text.len() {
        text.len() as int
    } else if k >= 0 && text[k] == '\n' {
        k
    } else {
        line_end(text, k + 1)
    }
}

/// The number of the last line of `text`, counted from 1.
pub open spec fn line_count(text: Seq<char>) -> nat {
    1 + newlines_before(text, text.len() as int)
}

/// What a reader is, as plain values: the characters it scans and where
/// it stands among them.
pub struct ReaderState {
    /// The characters, fixed for the life of the reader.
    pub text: Seq<char>,
    /// Index of the next unread character.
    pub position: nat,
    /// Number of the line that is being read, counted from 1.
    pub line: nat,
    /// Characters read since the last newline was read.
    pub column: nat,
}

impl ReaderState {
    /// The state of a reader over `text` that has read its first
    /// `position` characters one by one.
    pub open spec fn at(text: Seq<char>, position: nat) -> ReaderState {
        ReaderState {
            text,
            position,
            line: 1 + newlines_before(text, position as int),
            column: (position - line_start(text, position as int)) as nat,
        }
    }

    /// The state of a fresh reader over `text`.
    pub open spec fn start(text: Seq<char>) -> ReaderState {
        ReaderState { text, position: 0, line: 1, column: 0 }
    }

    /// Line and column are those that reading up to `position` gives.
    pub open spec fn valid(self) -> bool {
        &&& self.position <= self.text.len()
        &&& self == Self::at(self.text, self.position)
    }

    /// A character is left to read.
    pub open spec fn has_next(self) -> bool {
        self.position < self.text.len()
    }

    /// The character that was read last, if any.
    pub open spec fn previous(self) -> Option<char> {
        if self.position == 0 {
            None
        } else {
            Some(self.text[self.position - 1])
        }
    }

    /// The character that the next read gives, if any.
    pub open spec fn upcoming(self) -> Option<char> {
        if self.has_next() {
            Some(self.text[self.position as int])
        } else {
            None
        }
    }

    /// The state after one read: nothing changes at the end of the
    /// text; elsewhere the position moves on by one, and the column too,
    /// unless the character is a newline, which opens a line at column 0.
    pub open spec fn after_read(self) -> ReaderState {
        if !self.has_next() {
            self
        } else if self.text[self.position as int] == '\n' {
            ReaderState { position: self.position + 1, line: self.line + 1, column: 0, ..self }
        } else {
            ReaderState { position: self.position + 1, column: self.column + 1, ..self }
        }
    }

    /// The state after one step back: nothing changes at the start of
    /// the text; elsewhere the position moves back by one, and the column
    /// too, unless the step crosses a newline: then the line before is
    /// current again, and the column is the count of characters between
    /// its start and the new position.
    pub open spec fn after_back(self) -> ReaderState {
        if self.position == 0 {
            self
        } else if self.text[self.position - 1] == '\n' {
            ReaderState {
                position: (self.position - 1) as nat,
                line: (self.line - 1) as nat,
                column: (self.position - 1 - line_start(self.text, self.position - 1)) as nat,
                ..self
            }
        } else {
            ReaderState {
                position: (self.position - 1) as nat,
                column: (self.column - 1) as nat,
                ..self
            }
        }
    }

    /// The state after `count` reads in a row.
    pub open spec fn after_reads(self, count: nat) -> ReaderState
        decreases count,
    {
        if count == 0 {
            self
        } else {
            self.after_reads((count - 1) as nat).after_read()
        }
    }

    /// The state after `count` steps back in a row.
    pub open spec fn after_backs(self, count: nat) -> ReaderState
        decreases count,
    {
        if count == 0 {
            self
        } else {
            self.after_backs((count - 1) as nat).after_back()
        }
    }

    /// The characters that come next are exactly those of `pattern`.
    pub open spec fn starts_with(self, pattern: Seq<char>) -> bool {
        &&& self.position + pattern.len() <= self.text.len()
        &&& self.text.subrange(self.position as int, (self.position + pattern.len()) as int)
            == pattern
    }

    /// The state that a probe for `pattern` leaves: just past the
    /// pattern where the state starts with it, the state itself where it
    /// does not.
    pub open spec fn after_match(self, pattern: Seq<char>) -> ReaderState {
        if self.starts_with(pattern) {
            Self::at(self.text, self.position + pattern.len())
        } else {
            self
        }
    }

    /// The line around the position, without its newline; nothing for an
    /// empty line.
    pub open spec fn line_text(self) -> Option<Seq<char>> {
        let from = line_start(self.text, self.position as int);
        let to = line_end(self.text, self.position as int);
        if from == to {
            None
        } else {
            Some(self.text.subrange(from, to))
        }
    }
}

/// What a probe is, as plain values: the state of the reader it holds,
/// the characters it expects to come next, and how long its last match
/// was (0 before the first).
pub struct DetectorState {
    /// The state of the reader that is probed.
    pub reader: ReaderState,
    /// The characters that are expected to come next, in order.
    pub expected: Seq<char>,
    /// Length of the last match.
    pub matched_len: nat,
}

impl DetectorState {
    /// The state of a new probe on a reader in state `reader`.
    pub open spec fn fresh(reader: ReaderState) -> DetectorState {
        DetectorState { reader, expected: Seq::empty(), matched_len: 0 }
    }

    /// The same probe, expecting `more` after what it expects already.
    pub open spec fn expecting(self, more: Seq<char>) -> DetectorState {
        DetectorState { expected: self.expected + more, ..self }
    }

    /// What is expected comes next in the reader.
    pub open spec fn matches(self) -> bool {
        self.reader.starts_with(self.expected)
    }

    /// The state after the probe has looked: on a match the reader
    /// stands just past it and its length is kept; without one nothing
    /// has changed.
    pub open spec fn after_probe(self) -> DetectorState {
        if self.matches() {
            DetectorState {
                reader: self.reader.after_match(self.expected),
                matched_len: self.expected.len(),
                ..self
            }
        } else {
            self
        }
    }

    /// The state after the reader has stepped back once for each
    /// character of the last match.
    pub open spec fn after_rollback(self) -> DetectorState {
        DetectorState { reader: self.reader.after_backs(self.matched_len), ..self }
    }
}

/// No prefix holds more newlines than a longer one, nor more than it has
/// characters.
pub proof fn lemma_newlines_grow(text: Seq<char>, j: int, k: int)
    requires
        0 <= j <= k,
    ensures
        newlines_before(text, j) <= newlines_before(text, k),
        newlines_before(text, k) <= k,
    decreases k,
{
    if k > 0 {
        if j < k {
            lemma_newlines_grow(text, j, k - 1);
        } else {
            lemma_newlines_grow(text, k - 1, k - 1);
        }
    }
}

/// A line starts at or before every index on it, right after a newline
/// or at the start of the text, and holds no newline up to that index.
pub proof fn lemma_line_start(text: Seq<char>, k: int)
    requires
        0 <= k <= text.len(),
    ensures
        0 <= line_start(text, k) <= k,
        line_start(text, k) == 0 || text[line_start(text, k) - 1] == '\n',
        forall|i: int| line_start(text, k) <= i < k ==> text[i] != '\n',
    decreases k,
{
    if k > 0 && text[k - 1] != '\n' {
        lemma_line_start(text, k - 1);
    }
}

/// Two indices with no newline between them lie on one line.
pub proof fn lemma_same_line(text: Seq<char>, j: int, k: int)
    requires
        0 <= j <= k <= text.len(),
        forall|i: int| j <= i < k ==> text[i] != '\n',
    ensures
        line_start(text, j) == line_start(text, k),
        line_end(text, j) == line_end(text, k),
        newlines_before(text, j) == newlines_before(text, k),
    decreases k - j,
{
    if j < k {
        lemma_same_line(text, j, k - 1);
    }
}

/// A read keeps a state valid, and where a character is left it leads to
/// the state of the next position.
pub proof fn lemma_read_valid(s: ReaderState)
    requires
        s.valid(),
    ensures
        s.after_read().valid(),
        s.after_read().text == s.text,
        s.has_next() ==> s.after_read() == ReaderState::at(s.text, s.position + 1),
{
    if s.has_next() {
        lemma_line_start(s.text, s.position as int);
    }
}

/// A step back keeps a state valid, and past the start of the text it
/// leads to the state of the position before.
pub proof fn lemma_back_valid(s: ReaderState)
    requires
        s.valid(),
    ensures
        s.after_back().valid(),
        s.after_back().text == s.text,
        s.position > 0 ==> s.after_back() == ReaderState::at(s.text, (s.position - 1) as nat),
{
    if s.position > 0 {
        lemma_line_start(s.text, s.position - 1);
    }
}

/// A read that is undone at once leaves position, line and column as
/// they were. At the end of a text that is not empty the read does
/// nothing and the step back still moves, so that state is left out.
pub proof fn lemma_read_then_back(s: ReaderState)
    requires
        s.valid(),
        s.has_next() || s.position == 0,
    ensures
        s.after_read().after_back() == s,
{
}

/// Reads in a row lead to the state of the position that many
/// characters on, or of the end of the text where fewer are left.
pub proof fn lemma_reads(s: ReaderState, count: nat)
    requires
        s.valid(),
    ensures
        s.after_reads(count).valid(),
        s.after_reads(count) == ReaderState::at(
            s.text,
            if s.position + count <= s.text.len() {
                s.position + count
            } else {
                s.text.len()
            },
        ),
    decreases count,
{
    if count > 0 {
        lemma_reads(s, (count - 1) as nat);
        lemma_read_valid(s.after_reads((count - 1) as nat));
    }
}

/// Steps back in a row lead to the state of the position that many
/// characters before, or of the start of the text where fewer were read.
pub proof fn lemma_backs(s: ReaderState, count: nat)
    requires
        s.valid(),
    ensures
        s.after_backs(count).valid(),
        s.after_backs(count) == ReaderState::at(
            s.text,
            if count <= s.position {
                (s.position - count) as nat
            } else {
                0
            },
        ),
    decreases count,
{
    if count > 0 {
        lemma_backs(s, (count - 1) as nat);
        lemma_back_valid(s.after_backs((count - 1) as nat));
    }
}

/// A valid state is the one that a fresh reader is in after as many
/// reads as the position says.
pub proof fn lemma_valid_is_reached(s: ReaderState)
    requires
        s.valid(),
    ensures
        ReaderState::start(s.text).valid(),
        s == ReaderState::start(s.text).after_reads(s.position),
{
    lemma_reads(ReaderState::start(s.text), s.position);
}

/// Whenever reads in a row have left nothing to read, the position is
/// the length of the text; and as many reads as characters remain do
/// leave nothing.
pub proof fn lemma_read_to_end(s: ReaderState, count: nat)
    requires
        s.valid(),
    ensures
        !s.after_reads(count).has_next() ==> s.after_reads(count).position == s.text.len(),
        count >= s.text.len() - s.position ==> !s.after_reads(count).has_next(),
{
    lemma_reads(s, count);
}

/// A probe moves the reader just as far as the expected characters are
/// long, to where that many reads lead, if they come next; it changes
/// nothing if they do not.
pub proof fn lemma_probe(d: DetectorState)
    requires
        d.reader.valid(),
    ensures
        d.after_probe().reader.valid(),
        d.after_probe().reader.text == d.reader.text,
        d.matches() ==> d.after_probe().reader.position == d.reader.position + d.expected.len(),
        d.matches() ==> d.after_probe().reader == d.reader.after_reads(d.expected.len()),
        !d.matches() ==> d.after_probe() == d,
{
    if d.matches() {
        lemma_reads(d.reader, d.expected.len());
    }
}

/// A probe that expects exactly what is left of the text matches, and
/// leaves the reader at the end: no character need follow a match.
pub proof fn lemma_probe_for_the_rest(d: DetectorState)
    requires
        d.reader.valid(),
        d.expected == d.reader.text.subrange(
            d.reader.position as int,
            d.reader.text.len() as int,
        ),
    ensures
        d.matches(),
        d.after_probe().reader.position == d.reader.text.len(),
{
}

/// A rollback leaves the reader as many characters back as the last
/// match was long, or at the start of the text where that is nearer.
pub proof fn lemma_rollback(d: DetectorState)
    requires
        d.reader.valid(),
    ensures
        d.after_rollback().reader.valid(),
        d.after_rollback().reader == ReaderState::at(
            d.reader.text,
            if d.matched_len <= d.reader.position {
                (d.reader.position - d.matched_len) as nat
            } else {
                0
            },
        ),
{
    lemma_backs(d.reader, d.matched_len);
}

/// A rollback right after a match puts the reader back where the probe
/// found it, so that what was matched is read again.
pub proof fn lemma_probe_then_rollback(d: DetectorState)
    requires
        d.reader.valid(),
        d.matches(),
    ensures
        d.after_probe().after_rollback().reader == d.reader,
{
    lemma_rollback(d.after_probe());
}

} // verus!
