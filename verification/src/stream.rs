//! A peekable stream of characters with an explicit read position.

use vstd::prelude::*;

verus! {

/// The character at position `p` of `s`, if there is one.
pub open spec fn char_at(s: Seq<char>, p: int) -> Option<char> {
    if 0 <= p < s.len() {
        Some(s[p])
    } else {
        None
    }
}

/// A sequence of characters together with the position of the next one to read.
pub struct CharStream {
    chars: Vec<char>,
    pos: usize,
}

impl CharStream {
    #[verifier::type_invariant]
    spec fn inv(self) -> bool {
        self.pos <= self.chars.len()
    }

    /// All characters of the stream, the consumed ones included.
    pub closed spec fn text(self) -> Seq<char> {
        self.chars@
    }

    /// Number of characters consumed so far.
    pub closed spec fn at(self) -> int {
        self.pos as int
    }

    /// A stream that starts at the first of `chars`.
    pub fn new(chars: Vec<char>) -> (s: Self)
        ensures
            s.text() == chars@,
            s.at() == 0,
    {
        CharStream { chars, pos: 0 }
    }

    /// The next character, without consuming it.
    pub fn peek(&self) -> (c: Option<char>)
        ensures
            c == char_at(self.text(), self.at()),
            0 <= self.at() <= self.text().len(),
    {
        proof {
            use_type_invariant(self);
        }
        if self.pos < self.chars.len() {
            Some(self.chars[self.pos])
        } else {
            None
        }
    }

    /// Consumes and returns the next character.
    pub fn next(&mut self) -> (c: Option<char>)
        ensures
            c == char_at(old(self).text(), old(self).at()),
            final(self).text() == old(self).text(),
            final(self).at() == if old(self).at() < old(self).text().len() {
                old(self).at() + 1
            } else {
                old(self).at()
            },
            0 <= final(self).at() <= final(self).text().len(),
    {
        proof {
            use_type_invariant(&*self);
        }
        if self.pos < self.chars.len() {
            let c = self.chars[self.pos];
            self.pos = self.pos + 1;
            Some(c)
        } else {
            None
        }
    }

    /// Another stream over the same characters, at the same position.
    pub fn duplicate(&self) -> (s: Self)
        ensures
            s.text() == self.text(),
            s.at() == self.at(),
    {
        proof {
            use_type_invariant(self);
        }
        let chars = self.chars.clone();
        assert(chars@ =~= self.chars@);
        CharStream { chars, pos: self.pos }
    }

    /// Goes back (or forward) to position `p`.
    pub fn seek(&mut self, p: usize)
        requires
            p <= old(self).text().len(),
        ensures
            final(self).text() == old(self).text(),
            final(self).at() == p,
    {
        self.pos = p;
    }

    /// Number of characters consumed so far.
    pub fn position(&self) -> (p: usize)
        ensures
            p == self.at(),
            0 <= self.at() <= self.text().len(),
    {
        proof {
            use_type_invariant(self);
        }
        self.pos
    }
}

/// The characters of `s`, in order.
pub fn chars_of(s: &str) -> (v: Vec<char>)
    ensures
        v@ == s@,
{
    let mut v: Vec<char> = Vec::new();
    for c in it: s.chars()
        invariant
            v@ == it.seq().subrange(0, it.index() as int),
            it.seq() == s@,
    {
        v.push(c);
    }
    v
}

} // verus!
