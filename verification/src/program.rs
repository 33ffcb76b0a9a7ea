//! A program: an immutable sequence of word tokens plus a read cursor.

use vstd::prelude::*;

verus! {

/// Mathematical model of one call frame: its tokens and its cursor.
#[verifier::ext_equal]
pub ghost struct AbsFrame {
    pub tokens: Seq<Seq<char>>,
    pub pos: int,
}

/// An ordered sequence of word tokens together with a read cursor. The tokens
/// never change after construction; only the cursor advances.
pub struct Program {
    stream: Vec<String>,
    pos: usize,
}

impl View for Program {
    type V = AbsFrame;

    closed spec fn view(&self) -> AbsFrame {
        AbsFrame { tokens: self.stream.deep_view(), pos: self.pos as int }
    }
}

impl DeepView for Program {
    type V = AbsFrame;

    open spec fn deep_view(&self) -> AbsFrame {
        self.view()
    }
}

impl Program {
    /// The cursor never stands before the first token.
    pub proof fn lemma_pos_nonneg(&self)
        ensures
            self@.pos >= 0,
    {
    }

    /// A fresh program over the given tokens, with the cursor at the start.
    pub fn from_stream(stream: Vec<String>) -> (r: Self)
        ensures
            r@ == (AbsFrame { tokens: stream.deep_view(), pos: 0 }),
    {
        Program { stream, pos: 0 }
    }

    /// Returns the token at the cursor and advances the cursor, or `None`
    /// once the cursor has reached the end (this frame is exhausted).
    pub fn pop(&mut self) -> (r: Option<&String>)
        ensures
            match r {
                Some(t) => old(self)@.pos < old(self)@.tokens.len() && t@ == old(
                    self,
                )@.tokens[old(self)@.pos] && final(self)@ == (AbsFrame {
                    tokens: old(self)@.tokens,
                    pos: old(self)@.pos + 1,
                }),
                None => old(self)@.pos >= old(self)@.tokens.len() && *final(self) == *old(self),
            },
    {
        if self.pos < self.stream.len() {
            let p = self.pos;
            self.pos = p + 1;
            let t = &self.stream[p];
            assert(t@ == self.stream.deep_view()[p as int]);
            Some(t)
        } else {
            None
        }
    }
}

} // verus!
