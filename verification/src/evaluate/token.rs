//! Tokens.
use super::enums::{Special, TokenKind};
use vstd::prelude::*;
use vstd::slice::slice_subrange;

verus! {

/// A lexical unit: its kind and the bytes `[start, end)` of the source that
/// it covers.
#[derive(Debug, Clone, Copy, PartialEq, Eq, Structural)]
pub struct Token {
    pub token_kind: TokenKind,
    pub start: usize,
    pub end: usize,
}

impl Token {
    /// The text of the token within `source`.
    pub open spec fn text(self, source: Seq<u8>) -> Seq<u8>
        recommends
            self.start <= self.end <= source.len(),
    {
        source.subrange(self.start as int, self.end as int)
    }

    /// A token of one byte at `start`.
    pub fn new(token_kind: TokenKind, start: usize) -> (token: Token)
        requires
            start < usize::MAX,
        ensures
            token == (Token { token_kind, start, end: (start + 1) as usize }),
    {
        Token { token_kind, start, end: start + 1 }
    }

    /// The kind of the token.
    pub fn kind(&self) -> (kind: TokenKind)
        ensures
            kind == self.token_kind,
    {
        self.token_kind
    }

    /// Changes the kind of the token.
    pub fn set_kind(&mut self, token_kind: TokenKind)
        ensures
            *final(self) == (Token { token_kind, ..*old(self) }),
    {
        self.token_kind = token_kind;
    }

    /// Lets the token cover one more byte.
    pub fn inc_end(&mut self)
        requires
            old(self).end < usize::MAX,
        ensures
            *final(self) == (Token { end: (old(self).end + 1) as usize, ..*old(self) }),
    {
        self.end += 1;
    }

    /// Changes the kind and lets the token cover one more byte.
    pub fn set_inc(&mut self, token_kind: TokenKind)
        requires
            old(self).end < usize::MAX,
        ensures
            *final(self) == (Token {
                token_kind,
                start: old(self).start,
                end: (old(self).end + 1) as usize,
            }),
    {
        self.token_kind = token_kind;
        self.end += 1;
    }

    /// The marker that stands for the zero in front of a unary minus. It
    /// covers no byte of the source.
    pub fn new_neg_zero() -> (token: Token)
        ensures
            token == (Token { token_kind: TokenKind::Special(Special::NegZero), start: 0, end: 0 }),
    {
        Token { token_kind: TokenKind::Special(Special::NegZero), start: 0, end: 0 }
    }

    /// The text of the token within `source`.
    pub fn slice<'b>(&self, source: &'b [u8]) -> (text: &'b [u8])
        requires
            self.start <= self.end <= source@.len(),
        ensures
            text@ == self.text(source@),
    {
        slice_subrange(source, self.start, self.end)
    }
}

} // verus!
