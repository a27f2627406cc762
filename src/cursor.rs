use vstd::prelude::*;
use crate::grammar::significant;

verus! {

/// A forward-only view of the significant characters of a text, with one
/// character of lookahead.
pub struct Cursor {
    pub chars: Vec<char>,
    pub pos: usize,
}

impl Cursor {
    pub open spec fn wf(&self) -> bool {
        self.pos <= self.chars.len()
    }

    /// Starts at the first significant character of `text`.
    pub fn new(text: &str) -> (c: Cursor)
        ensures
            c.chars@ == significant(text@),
            c.pos == 0,
    {
        let mut chars: Vec<char> = Vec::new();
        let ghost t = text@;
        for ch in it: text.chars()
            invariant
                it.seq() == t,
                chars@ == significant(t.take(it.index() as int)),
        {
            proof {
                let k = it.index() as int;
                assert(t.take(k + 1).drop_last() =~= t.take(k));
                reveal(Seq::filter);
            }
            if ch != ' ' && ch != '\t' && ch != '\n' && ch != '\r' {
                chars.push(ch);
            }
        }
        assert(t.take(t.len() as int) =~= t);
        Cursor { chars, pos: 0 }
    }

    /// The next significant character, if any, without consuming it.
    pub fn peek(&self) -> (r: Option<char>)
        requires
            self.wf(),
        ensures
            r == (if self.pos < self.chars.len() {
                Some(self.chars@[self.pos as int])
            } else {
                None
            }),
    {
        if self.pos < self.chars.len() {
            Some(self.chars[self.pos])
        } else {
            None
        }
    }

    /// Consumes the next significant character and returns it.
    pub fn advance(&mut self) -> (c: char)
        requires
            old(self).pos < old(self).chars.len(),
        ensures
            final(self).chars == old(self).chars,
            final(self).pos == old(self).pos + 1,
            c == old(self).chars@[old(self).pos as int],
    {
        let c = self.chars[self.pos];
        self.pos = self.pos + 1;
        c
    }
}

} // verus!
