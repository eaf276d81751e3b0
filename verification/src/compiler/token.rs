use vstd::prelude::*;
use crate::compiler::token_kind::TokenKind;
use crate::text::append_bytes;
use crate::text::bytes_of;
use vstd::string::StringSliceAdditionalSpecFns;

verus! {

/// A token: its kind, its text, and the line it ends on. The text of an
/// error token is the message.
#[derive(Debug)]
pub struct Token {
    pub kind: TokenKind,
    pub text: Vec<u8>,
    pub line: u32,
}

impl Token {
    /// A token that stands in no source text, for a name the compiler
    /// makes up.
    pub fn synthetic(text: &str) -> (token: Token)
        ensures
            token.kind == TokenKind::Error,
            token.text@ == text.spec_bytes(),
            token.line == 0,
    {
        Token { kind: TokenKind::Error, text: bytes_of(text), line: 0 }
    }

    /// A copy of the token that owns its text.
    pub fn to_static(&self) -> (token: Token)
        ensures
            token.kind == self.kind,
            token.text@ == self.text@,
            token.line == self.line,
    {
        let mut text: Vec<u8> = Vec::new();
        append_bytes(&mut text, &self.text);
        assert(text@ =~= self.text@);
        Token { kind: self.kind, text, line: self.line }
    }
}

} // verus!
