//! A fixed-distance lookahead window over a character stream: a small
//! buffer of the next `peek_distance` characters that refills as the
//! stream is consumed.

use vstd::prelude::*;

use crate::utils::{chars_of, copy_range, string_from_chars};

verus! {

/// A character stream with a fixed-size lookahead buffer.
pub struct MultiPeek {
    chars: Vec<char>,
    pos: usize,
    peek_distance: usize,
}

impl MultiPeek {
    /// Validity: the read position never passes the end of the stream.
    pub closed spec fn wf(&self) -> bool {
        self.pos <= self.chars@.len()
    }

    /// The characters not yet consumed.
    pub closed spec fn remaining(&self) -> Seq<char> {
        self.chars@.skip(self.pos as int)
    }

    /// The lookahead distance the window was created with.
    pub closed spec fn distance(&self) -> nat {
        self.peek_distance as nat
    }

    /// The buffered window: the next characters, up to the lookahead
    /// distance.
    pub open spec fn buffer(&self) -> Seq<char> {
        if self.remaining().len() <= self.distance() {
            self.remaining()
        } else {
            self.remaining().take(self.distance() as int)
        }
    }

    /// A window over the characters of `s` with the given lookahead
    /// distance.
    pub fn new(s: &str, peek_distance: usize) -> (r: MultiPeek)
        ensures
            r.wf(),
            r.remaining() == s@,
            r.distance() == peek_distance,
    {
        let chars = chars_of(s);
        let r = MultiPeek { chars, pos: 0, peek_distance };
        proof {
            assert(r.remaining() =~= s@);
        }
        r
    }

    /// The buffered character `n` positions ahead, if the window reaches
    /// that far.
    pub fn peek_at(&self, n: usize) -> (r: Option<char>)
        requires
            self.wf(),
        ensures
            r == if n < self.buffer().len() {
                Some(self.buffer()[n as int])
            } else {
                None::<char>
            },
    {
        if n < self.peek_distance && n < self.chars.len() - self.pos {
            Some(self.chars[self.pos + n])
        } else {
            None
        }
    }

    /// The first `n` buffered characters, or the whole buffer when fewer
    /// remain; `n` must not exceed the lookahead distance.
    pub fn peek_until(&self, n: usize) -> (r: String)
        requires
            self.wf(),
            n <= self.distance(),
        ensures
            r@ == if n <= self.buffer().len() {
                self.buffer().take(n as int)
            } else {
                self.buffer()
            },
    {
        let blen = if self.peek_distance < self.chars.len() - self.pos {
            self.peek_distance
        } else {
            self.chars.len() - self.pos
        };
        let k = if n < blen {
            n
        } else {
            blen
        };
        let piece = copy_range(&self.chars, self.pos, self.pos + k);
        proof {
            if n <= self.buffer().len() {
                assert(piece@ =~= self.buffer().take(n as int));
            } else {
                assert(piece@ =~= self.buffer());
            }
        }
        string_from_chars(&piece)
    }

    /// Consumes and returns the next character, refilling the window.
    pub fn next(&mut self) -> (r: Option<char>)
        requires
            old(self).wf(),
        ensures
            final(self).wf(),
            final(self).distance() == old(self).distance(),
            old(self).remaining().len() == 0 ==> r is None && final(self).remaining() == old(
                self
            ).remaining(),
            old(self).remaining().len() > 0 ==> r == Some(old(self).remaining()[0]) && final(
                self
            ).remaining() == old(self).remaining().drop_first(),
    {
        if self.pos < self.chars.len() {
            let c = self.chars[self.pos];
            self.pos = self.pos + 1;
            proof {
                assert(self.remaining() =~= old(self).remaining().drop_first());
            }
            Some(c)
        } else {
            None
        }
    }

    /// Whether the stream is exhausted.
    pub fn is_empty(&self) -> (r: bool)
        requires
            self.wf(),
        ensures
            r == (self.remaining().len() == 0),
    {
        self.pos == self.chars.len()
    }
}

} // verus!
