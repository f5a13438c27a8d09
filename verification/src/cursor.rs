use vstd::prelude::*;

verus! {

broadcast use vstd::string::group_string_axioms;

/// The characters of `s`, in order.
pub fn chars_of(s: &str) -> (v: Vec<char>)
    ensures
        v@ == s@,
{
    let mut v: Vec<char> = Vec::new();
    for ch in it: s.chars()
        invariant
            it.seq() == s@,
            v@ == it.seq().take(it.index() as int),
    {
        v.push(ch);
    }
    v
}

/// Number of line breaks among `t[1..=p]`: the row a cursor stands on
/// once it has stepped forward to position `p`.
pub open spec fn newlines_upto(t: Seq<char>, p: int) -> nat
    decreases p,
{
    if p <= 0 {
        0
    } else {
        newlines_upto(t, p - 1) + if t[p] == '\n' { 1nat } else { 0nat }
    }
}

pub proof fn lemma_newlines_bounded(t: Seq<char>, p: int)
    ensures
        p >= 0 ==> newlines_upto(t, p) <= p,
    decreases p,
{
    if p > 0 {
        lemma_newlines_bounded(t, p - 1);
    }
}

/// Where a cursor stands, and where it stood before its last step.
pub struct Spot {
    pub pos: int,
    pub prev: int,
}

/// A spot is valid in `t` when both positions name a character of `t`
/// (or both are 0 when `t` is empty).
pub open spec fn valid_spot(t: Seq<char>, s: Spot) -> bool {
    if t.len() == 0 {
        s.pos == 0 && s.prev == 0
    } else {
        0 <= s.pos < t.len() && 0 <= s.prev < t.len()
    }
}

/// One forward step: the previous position becomes the current one, and the
/// cursor moves on unless it already stands on the last character.
pub open spec fn step(t: Seq<char>, s: Spot) -> Spot {
    if s.pos + 1 < t.len() {
        Spot { pos: s.pos + 1, prev: s.pos }
    } else {
        Spot { pos: s.pos, prev: s.pos }
    }
}

/// What `next` hands back from spot `s`.
pub open spec fn step_char(t: Seq<char>, s: Spot) -> Option<char> {
    if s.pos + 1 < t.len() {
        Some(t[s.pos + 1])
    } else {
        None
    }
}

/// The cursor moved back to where it stood before its last step.
pub open spec fn back(s: Spot) -> Spot {
    Spot { pos: s.prev, prev: s.prev }
}

/// The character after the current one, if there is one.
pub open spec fn peek_at(t: Seq<char>, s: Spot) -> Option<char> {
    if 0 <= s.pos + 1 < t.len() {
        Some(t[s.pos + 1])
    } else {
        None
    }
}

/// A place a cursor held, with its row and column counts.
pub struct Mark {
    pos: usize,
    row: usize,
    col: usize,
    prev_pos: usize,
    prev_row: usize,
    prev_col: usize,
}

impl Mark {
    pub closed spec fn spot(&self) -> Spot {
        Spot { pos: self.pos as int, prev: self.prev_pos as int }
    }

    /// The mark names a valid place of `t`, with the right counts.
    pub closed spec fn fits(&self, t: Seq<char>) -> bool {
        &&& valid_spot(t, self.spot())
        &&& self.row == newlines_upto(t, self.pos as int)
        &&& self.col == self.pos - self.row
        &&& self.prev_row == newlines_upto(t, self.prev_pos as int)
        &&& self.prev_col == self.prev_pos - self.prev_row
    }
}

/// A cursor over the characters of a document.  `row` counts the line breaks
/// stepped over and `col` every other character, so both follow from `pos`.
pub struct ParserCursor {
    file_string: Vec<char>,
    col: usize,
    row: usize,
    pos: usize,
    prev_col: usize,
    prev_row: usize,
    prev_pos: usize,
}

impl ParserCursor {
    /// The text under the cursor.
    pub closed spec fn text(&self) -> Seq<char> {
        self.file_string@
    }

    /// Where the cursor stands.
    pub closed spec fn spot(&self) -> Spot {
        Spot { pos: self.pos as int, prev: self.prev_pos as int }
    }

    /// The row the cursor stands on.
    pub closed spec fn row_spec(&self) -> nat {
        self.row as nat
    }

    /// The column counter of the cursor.
    pub closed spec fn col_spec(&self) -> nat {
        self.col as nat
    }

    /// The cursor stands on a valid spot of its text, with the right counts.
    pub open spec fn wf(&self) -> bool {
        &&& valid_spot(self.text(), self.spot())
        &&& self.counts_ok()
    }

    pub closed spec fn counts_ok(&self) -> bool {
        &&& self.row == newlines_upto(self.file_string@, self.pos as int)
        &&& self.col == self.pos - self.row
        &&& self.prev_row == newlines_upto(self.file_string@, self.prev_pos as int)
        &&& self.prev_col == self.prev_pos - self.prev_row
    }

    pub proof fn lemma_rows(&self)
        requires
            self.wf(),
        ensures
            self.row_spec() == newlines_upto(self.text(), self.spot().pos),
            self.col_spec() == self.spot().pos - self.row_spec(),
            valid_spot(self.text(), self.spot()),
    {
    }

    /// A cursor at the first character of `file_string`.
    pub fn new(file_string: String) -> (c: ParserCursor)
        ensures
            c.wf(),
            c.text() == file_string@,
            c.spot() == (Spot { pos: 0, prev: 0 }),
    {
        let chars = chars_of(file_string.as_str());
        ParserCursor { file_string: chars, col: 0, row: 0, pos: 0, prev_col: 0, prev_row: 0, prev_pos: 0 }
    }

    /// The number of characters under the cursor.
    pub fn len(&self) -> (n: usize)
        ensures
            n == self.text().len(),
    {
        self.file_string.len()
    }

    /// The character `i` of the text.
    pub fn char_at(&self, i: usize) -> (ch: char)
        requires
            i < self.text().len(),
        ensures
            ch == self.text()[i as int],
    {
        self.file_string[i]
    }

    /// The position the cursor stood on before its last step.
    pub fn prev_pos(&self) -> (p: usize)
        ensures
            p == self.spot().prev,
    {
        self.prev_pos
    }

    /// The position the cursor stands on.
    pub fn pos(&self) -> (p: usize)
        ensures
            p == self.spot().pos,
    {
        self.pos
    }

    /// The row the cursor stands on: the line breaks it has stepped over.
    pub fn row(&self) -> (r: usize)
        requires
            self.wf(),
        ensures
            r == newlines_upto(self.text(), self.spot().pos),
    {
        self.row
    }

    /// The column counter: the characters other than line breaks that the
    /// cursor has stepped over.
    pub fn col(&self) -> (c: usize)
        requires
            self.wf(),
        ensures
            c == self.spot().pos - newlines_upto(self.text(), self.spot().pos),
    {
        self.col
    }

    /// The character after the current one, if any.
    pub fn peek(&self) -> (r: Option<char>)
        requires
            self.wf(),
        ensures
            r == peek_at(self.text(), self.spot()),
    {
        let n = self.file_string.len();
        if n > 0 && self.pos < n - 1 {
            Some(self.file_string[self.pos + 1])
        } else {
            None
        }
    }

    /// The current character, if the text is not empty.
    pub fn current(&self) -> (r: Option<char>)
        requires
            self.wf(),
        ensures
            self.text().len() > 0 ==> r == Some(self.text()[self.spot().pos]),
            self.text().len() == 0 ==> r is None,
    {
        if self.pos < self.file_string.len() {
            Some(self.file_string[self.pos])
        } else {
            None
        }
    }

    /// The current character of a non-empty text.
    pub fn cur(&self) -> (ch: char)
        requires
            self.wf(),
            self.text().len() > 0,
        ensures
            ch == self.text()[self.spot().pos],
    {
        self.file_string[self.pos]
    }

    /// Steps forward one character, counting rows and columns; remembers
    /// where it stood.  At the last character it stays, and gives `None`.
    pub fn next(&mut self) -> (r: Option<char>)
        requires
            old(self).wf(),
        ensures
            final(self).wf(),
            final(self).text() == old(self).text(),
            final(self).spot() == step(old(self).text(), old(self).spot()),
            r == step_char(old(self).text(), old(self).spot()),
    {
        proof {
            lemma_newlines_bounded(self.file_string@, self.pos as int);
        }
        let n = self.file_string.len();
        self.prev_col = self.col;
        self.prev_row = self.row;
        self.prev_pos = self.pos;
        if self.pos + 1 < n {
            self.pos += 1;
            if self.file_string[self.pos] == '\n' {
                self.row += 1;
            } else {
                self.col += 1;
            }
            Some(self.file_string[self.pos])
        } else {
            None
        }
    }

    /// Moves back to where the cursor stood before its last step.
    pub fn previous(&mut self)
        requires
            old(self).wf(),
        ensures
            final(self).wf(),
            final(self).text() == old(self).text(),
            final(self).spot() == back(old(self).spot()),
    {
        self.col = self.prev_col;
        self.row = self.prev_row;
        self.pos = self.prev_pos;
    }

    /// Everything needed to come back to where the cursor stands now.
    pub fn mark(&self) -> (m: Mark)
        requires
            self.wf(),
        ensures
            m.fits(self.text()),
            m.spot() == self.spot(),
    {
        Mark {
            pos: self.pos,
            row: self.row,
            col: self.col,
            prev_pos: self.prev_pos,
            prev_row: self.prev_row,
            prev_col: self.prev_col,
        }
    }

    /// Comes back to a marked place, previous position included.
    pub fn reset(&mut self, m: &Mark)
        requires
            old(self).wf(),
            m.fits(old(self).text()),
        ensures
            final(self).wf(),
            final(self).text() == old(self).text(),
            final(self).spot() == m.spot(),
    {
        self.pos = m.pos;
        self.row = m.row;
        self.col = m.col;
        self.prev_pos = m.prev_pos;
        self.prev_row = m.prev_row;
        self.prev_col = m.prev_col;
    }

    /// Comes back to a marked position, keeping the previous position the
    /// cursor has now.
    pub fn reset_pos(&mut self, m: &Mark)
        requires
            old(self).wf(),
            m.fits(old(self).text()),
        ensures
            final(self).wf(),
            final(self).text() == old(self).text(),
            final(self).spot() == (Spot { pos: m.spot().pos, prev: old(self).spot().prev }),
    {
        self.pos = m.pos;
        self.row = m.row;
        self.col = m.col;
    }

    /// Puts the cursor back on a spot it held before.
    pub fn restore(&mut self, s: (usize, usize))
        requires
            old(self).wf(),
            valid_spot(old(self).text(), Spot { pos: s.0 as int, prev: s.1 as int }),
        ensures
            final(self).wf(),
            final(self).text() == old(self).text(),
            final(self).spot() == (Spot { pos: s.0 as int, prev: s.1 as int }),
    {
        proof {
            lemma_newlines_bounded(self.file_string@, s.0 as int);
            lemma_newlines_bounded(self.file_string@, s.1 as int);
        }
        let r = self.count_rows(s.0);
        let pr = self.count_rows(s.1);
        self.pos = s.0;
        self.row = r;
        self.col = s.0 - r;
        self.prev_pos = s.1;
        self.prev_row = pr;
        self.prev_col = s.1 - pr;
    }

    fn count_rows(&self, p: usize) -> (r: usize)
        requires
            p < self.file_string@.len() || p == 0,
        ensures
            r == newlines_upto(self.file_string@, p as int),
    {
        let mut r: usize = 0;
        let mut i: usize = 1;
        while i <= p
            invariant
                1 <= i <= p + 1,
                p < self.file_string@.len() || p == 0,
                self.file_string@.len() == self.file_string.len(),
                r == newlines_upto(self.file_string@, i - 1),
                r <= i - 1,
            decreases p + 1 - i,
        {
            if self.file_string[i] == '\n' {
                r += 1;
            }
            i += 1;
        }
        r
    }
}

} // verus!
