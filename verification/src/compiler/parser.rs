use vstd::prelude::*;
use vstd::string::StringSliceAdditionalSpecFns;
use crate::compiler::scanner::scan;
use crate::compiler::scanner::Scan;
use crate::compiler::scanner::Scanner;
use crate::compiler::token::Token;
use crate::compiler::token_kind::TokenKind;
use crate::text::append_bytes;
use crate::text::append_decimal;
use crate::text::append_str;
use crate::text::bytes_of;
use crate::text::decimal_digits;

verus! {

/// Where in the source an error was found.
#[derive(Debug)]
pub enum Location {
    /// At the end of the source.
    End,
    /// At the token with this text.
    At(Vec<u8>),
    /// At a token that could not be read; the message says what was wrong
    /// with it.
    Unread,
}

/// An error the compiler reports.
#[derive(Debug)]
pub struct Error {
    pub line: u32,
    pub location: Location,
    pub message: Vec<u8>,
}

/// An error as mathematics: the line, where on it, and the message.
pub ghost struct ErrorView {
    pub line: u32,
    pub place: Seq<u8>,
    pub message: Seq<u8>,
}

impl View for Error {
    type V = ErrorView;

    open spec fn view(&self) -> ErrorView {
        ErrorView {
            line: self.line,
            place: location_text(self.at().0, self.at().1),
            message: self.message@,
        }
    }
}

/// The errors of a list, as mathematics.
pub open spec fn error_views(errors: Seq<Error>) -> Seq<ErrorView> {
    errors.map_values(|error: Error| error@)
}

/// The next token that can be read at or behind `pos`, and the errors
/// that the tokens before it stand for, which cannot.
pub open spec fn next_token(src: Seq<u8>, pos: int, line: u32) -> (Scan, Seq<ErrorView>)
    decreases src.len() - pos,
{
    let found = scan(src, pos, line);
    if found.kind == TokenKind::Error && pos < found.end <= src.len() {
        let (token, errors) = next_token(src, found.end, found.line);
        (
            token,
            seq![ErrorView { line: found.line, place: Seq::empty(), message: found.text }] + errors,
        )
    } else {
        (found, Seq::empty())
    }
}

/// The errors that the tokens at or behind `pos` stand for which cannot
/// be read, in order, up to the end of the source.
pub open spec fn unreadable(src: Seq<u8>, pos: int, line: u32) -> Seq<ErrorView>
    decreases src.len() - pos,
{
    let (token, errors) = next_token(src, pos, line);
    if token.kind != TokenKind::Eof && pos < token.end <= src.len() {
        errors + unreadable(src, token.end, token.line)
    } else {
        errors
    }
}

/// The errors that the tokens of `src` stand for which cannot be read.
pub open spec fn lexical_errors(src: Seq<u8>) -> Seq<ErrorView> {
    unreadable(src, 0, 1)
}

/// Where an error at the token `tok` is reported.
pub open spec fn location_text(kind: TokenKind, text: Seq<u8>) -> Seq<u8> {
    if kind == TokenKind::Eof {
        " at end".spec_bytes()
    } else if kind == TokenKind::Error {
        Seq::empty()
    } else {
        " at '".spec_bytes() + text + "'".spec_bytes()
    }
}

/// How an error at a token of kind `kind` with text `text` on line `line`
/// reads.
pub open spec fn error_text(line: u32, kind: TokenKind, text: Seq<u8>, message: Seq<u8>) -> Seq<u8> {
    "[line ".spec_bytes() + decimal_digits(line as nat) + "] Error".spec_bytes() + location_text(
        kind,
        text,
    ) + ": ".spec_bytes() + message
}

impl Error {
    /// The kind and text of a token at which this error would be reported.
    pub open spec fn at(&self) -> (TokenKind, Seq<u8>) {
        match self.location {
            Location::End => (TokenKind::Eof, Seq::empty()),
            Location::At(text) => (TokenKind::Identifier, text@),
            Location::Unread => (TokenKind::Error, Seq::empty()),
        }
    }

    /// The error as the user reads it: the line, the place, the message.
    pub fn text(&self) -> (text: Vec<u8>)
        ensures
            text@ == error_text(self.line, self.at().0, self.at().1, self.message@),
    {
        let mut text: Vec<u8> = Vec::new();
        append_str(&mut text, "[line ");
        append_decimal(&mut text, self.line as usize);
        append_str(&mut text, "] Error");
        match &self.location {
            Location::End => append_str(&mut text, " at end"),
            Location::At(token) => {
                append_str(&mut text, " at '");
                append_bytes(&mut text, token);
                append_str(&mut text, "'");
            },
            Location::Unread => {},
        }
        append_str(&mut text, ": ");
        append_bytes(&mut text, &self.message);
        assert(text@ =~= error_text(self.line, self.at().0, self.at().1, self.message@));
        text
    }
}

/// The error with message `msg` at the token `tok`.
pub fn error_at(tok: &Token, msg: &str) -> (error: Error)
    ensures
        error.line == tok.line,
        error.message@ == msg.spec_bytes(),
        location_text(error.at().0, error.at().1) == location_text(tok.kind, tok.text@),
{
    let location = match tok.kind {
        TokenKind::Eof => Location::End,
        TokenKind::Error => Location::Unread,
        _ => {
            let mut text: Vec<u8> = Vec::new();
            append_bytes(&mut text, &tok.text);
            assert(text@ =~= tok.text@);
            Location::At(text)
        },
    };
    Error { line: tok.line, location, message: bytes_of(msg) }
}

/// The error that an error token stands for: its text is the message.
pub fn error_of(tok: &Token) -> (error: Error)
    ensures
        error.line == tok.line,
        error.message@ == tok.text@,
        error.location is Unread,
{
    let mut message: Vec<u8> = Vec::new();
    append_bytes(&mut message, &tok.text);
    assert(message@ =~= tok.text@);
    Error { line: tok.line, location: Location::Unread, message }
}

/// The token stream as the compiler sees it: the token just taken, and
/// the one that comes next.
pub struct Parser {
    pub scanner: Scanner,
    pub current: Token,
    pub previous: Token,
    /// While set, tokens that cannot be read are passed over in silence.
    pub panic_mode: bool,
}

impl Parser {
    pub open spec fn wf(&self) -> bool {
        &&& self.scanner.wf()
        &&& self.current.kind != TokenKind::Error
    }

    /// How much is left to parse: the bytes the scanner has not read, and
    /// the token that comes next unless it is the end.
    pub open spec fn measure(&self) -> nat {
        (self.scanner.source@.len() - self.scanner.current + (if self.current.kind
            == TokenKind::Eof {
            0int
        } else {
            1int
        })) as nat
    }

    /// How many tokens that cannot be read are still to come.
    #[verifier::opaque]
    pub open spec fn owed(&self) -> nat {
        if self.current.kind == TokenKind::Eof {
            0
        } else {
            unreadable(self.scanner.source@, self.scanner.current as int, self.scanner.line_no).len()
        }
    }

    /// A parser for `source` with the first token read: it is the token
    /// that comes next, and no token is taken yet. Tokens before it that
    /// cannot be read are reported to `errors` and passed over.
    pub fn new(source: &str, errors: &mut Vec<Error>) -> (parser: Self)
        ensures
            parser.wf(),
            parser.scanner.source@ == source.spec_bytes(),
            parser.current.kind == next_token(source.spec_bytes(), 0, 1).0.kind,
            parser.current.text@ == next_token(source.spec_bytes(), 0, 1).0.text,
            parser.current.line == next_token(source.spec_bytes(), 0, 1).0.line,
            parser.scanner.current == next_token(source.spec_bytes(), 0, 1).0.end,
            parser.scanner.line_no == next_token(source.spec_bytes(), 0, 1).0.line,
            parser.previous.kind == TokenKind::Sof,
            parser.previous.text@ == Seq::<u8>::empty(),
            parser.previous.line == 1,
            !parser.panic_mode,
            error_views(final(errors)@) == error_views(old(errors)@) + next_token(
                source.spec_bytes(),
                0,
                1,
            ).1,
            forall|i: int|
                0 <= i < old(errors)@.len() ==> final(errors)@[i] == old(errors)@[i],
            final(errors)@.len() + parser.owed() >= old(errors)@.len() + lexical_errors(
                source.spec_bytes(),
            ).len(),
    {
        let mut parser = Parser {
            scanner: Scanner::new(source),
            current: Token { kind: TokenKind::Sof, text: Vec::new(), line: 1 },
            previous: Token { kind: TokenKind::Sof, text: Vec::new(), line: 1 },
            panic_mode: false,
        };
        proof {
            reveal(Parser::owed);
        }
        parser.advance(errors);
        parser
    }

    /// Takes the token that came next, and reads the one that comes next
    /// now, which it hands back. A token that cannot be read is reported
    /// and passed over.
    pub fn advance(&mut self, errors: &mut Vec<Error>) -> (token: Token)
        requires
            old(self).wf(),
        ensures
            token.kind == final(self).current.kind,
            token.text@ == final(self).current.text@,
            token.line == final(self).current.line,
            final(self).wf(),
            final(self).previous == old(self).current,
            final(self).current.kind != TokenKind::Sof,
            final(self).panic_mode == old(self).panic_mode,
            final(self).scanner.source == old(self).scanner.source,
            final(self).scanner.current >= old(self).scanner.current,
            final(self).measure() <= old(self).measure(),
            old(self).current.kind != TokenKind::Eof ==> final(self).measure() < old(self).measure(),
            final(errors)@.len() >= old(errors)@.len(),
            old(self).panic_mode ==> final(errors)@ == old(errors)@,
            forall|i: int|
                0 <= i < old(errors)@.len() ==> final(errors)@[i] == old(errors)@[i],
            Self::advanced(old(self), final(self)),
            !old(self).panic_mode ==> error_views(final(errors)@) == error_views(old(errors)@)
                + next_token(
                old(self).scanner.source@,
                old(self).scanner.current as int,
                old(self).scanner.line_no,
            ).1,
            !old(self).panic_mode ==> final(errors)@.len() + final(self).owed() >= old(errors)@.len()
                + old(self).owed(),
    {
        proof {
            old(self).lemma_owed();
        }
        let ghost src = self.scanner.source@;
        let ghost goal = next_token(src, self.scanner.current as int, self.scanner.line_no);
        let ghost mut reported: Seq<ErrorView> = Seq::empty();
        let token = self.scanner.scan_token();
        core::mem::swap(&mut self.previous, &mut self.current);
        self.current = token;
        proof {
            assert(error_views(errors@) + reported =~= error_views(errors@));
        }
        while self.current.kind == TokenKind::Error
            invariant
                src == self.scanner.source@,
                goal == next_token(
                    src,
                    old(self).scanner.current as int,
                    old(self).scanner.line_no,
                ),
                self.scanner.current <= src.len(),
                self.current.kind == TokenKind::Error ==> self.scanner.current > old(self).scanner.current,
                goal == (if self.current.kind == TokenKind::Error {
                    (
                        next_token(src, self.scanner.current as int, self.scanner.line_no).0,
                        reported + (seq![
                            ErrorView {
                                line: self.current.line,
                                place: Seq::empty(),
                                message: self.current.text@,
                            },
                        ] + next_token(src, self.scanner.current as int, self.scanner.line_no).1),
                    )
                } else {
                    (
                        Scan {
                            kind: self.current.kind,
                            text: self.current.text@,
                            end: self.scanner.current as int,
                            line: self.current.line,
                        },
                        reported,
                    )
                }),
                self.current.line == self.scanner.line_no,
                !old(self).panic_mode ==> error_views(errors@) == error_views(old(errors)@)
                    + reported,
                self.scanner.wf(),
                self.previous == old(self).current,
                self.current.kind != TokenKind::Sof,
                self.panic_mode == old(self).panic_mode,
                self.scanner.source == old(self).scanner.source,
                self.scanner.current >= old(self).scanner.current,
                self.current.kind != TokenKind::Eof ==> self.scanner.current > old(self).scanner.current,
                errors@.len() >= old(errors)@.len(),
                old(self).panic_mode ==> errors@ == old(errors)@,
                forall|i: int| 0 <= i < old(errors)@.len() ==> errors@[i] == old(errors)@[i],
            decreases
                    self.scanner.source@.len() - self.scanner.current + (if self.current.kind
                        == TokenKind::Error {
                        1int
                    } else {
                        0int
                    }),
        {
            let ghost before = errors@;
            let ghost failed = ErrorView {
                line: self.current.line,
                place: Seq::empty(),
                message: self.current.text@,
            };
            if !self.panic_mode {
                errors.push(error_of(&self.current));
                proof {
                    assert(error_views(errors@) =~= error_views(before).push(failed));
                }
            }
            proof {
                assert(reported + (seq![failed] + next_token(
                    src,
                    self.scanner.current as int,
                    self.scanner.line_no,
                ).1) =~= reported.push(failed) + next_token(
                    src,
                    self.scanner.current as int,
                    self.scanner.line_no,
                ).1);
                assert(error_views(old(errors)@) + reported.push(failed) =~= (error_views(
                    old(errors)@,
                ) + reported).push(failed));
                reported = reported.push(failed);
            }
            let token = self.scanner.scan_token();
            self.current = token;
            proof {
                assert(reported + Seq::<ErrorView>::empty() =~= reported);
            }
        }
        proof {
            reveal(Parser::owed);
            assert(error_views(errors@).len() == errors@.len());
            assert(error_views(old(errors)@).len() == old(errors)@.len());
        }
        self.current.to_static()
    }

    /// Of the tokens still to come that cannot be read, those before the
    /// next that can be are the first; after the end none is to come.
    pub proof fn lemma_owed(&self)
        ensures
            ({
                let src = self.scanner.source@;
                let next = next_token(src, self.scanner.current as int, self.scanner.line_no);
                let rest = if next.0.kind == TokenKind::Eof {
                    0
                } else {
                    unreadable(src, next.0.end, next.0.line).len()
                };
                self.owed() <= next.1.len() + rest
            }),
    {
        reveal(Parser::owed);
    }

    /// The parser `after` is the parser `before` one token on: the token
    /// that came next is taken, and the next token that can be read comes
    /// next now.
    pub open spec fn advanced(before: &Self, after: &Self) -> bool {
        let next = next_token(
            before.scanner.source@,
            before.scanner.current as int,
            before.scanner.line_no,
        ).0;
        &&& after.previous == before.current
        &&& after.current.kind == next.kind
        &&& after.current.text@ == next.text
        &&& after.current.line == next.line
        &&& after.scanner.current == next.end
        &&& after.scanner.line_no == next.line
        &&& after.scanner.source == before.scanner.source
        &&& after.panic_mode == before.panic_mode
    }

    /// Whether the token that comes next is of kind `kind`.
    pub fn check(&self, kind: TokenKind) -> (b: bool)
        ensures
            b == (self.current.kind == kind),
    {
        self.current.kind == kind
    }

    /// Takes the token that comes next if it is of kind `kind`, and hands
    /// back the one that comes next then.
    pub fn check_eat(&mut self, kind: TokenKind, errors: &mut Vec<Error>) -> (token: Option<Token>)
        requires
            old(self).wf(),
        ensures
            final(self).wf(),
            token.is_some() == (old(self).current.kind == kind),
            token.is_some() ==> token.unwrap().kind == final(self).current.kind
                && token.unwrap().text@ == final(self).current.text@ && token.unwrap().line
                == final(self).current.line,
            token.is_none() ==> *final(self) == *old(self) && final(errors)@ == old(errors)@,
            token.is_some() ==> final(self).previous == old(self).current && Self::advanced(
                old(self),
                final(self),
            ),
            final(self).panic_mode == old(self).panic_mode,
            final(self).scanner.source == old(self).scanner.source,
            final(self).measure() <= old(self).measure(),
            token.is_some() && kind != TokenKind::Eof ==> final(self).measure() < old(self).measure(),
            final(errors)@.len() >= old(errors)@.len(),
            forall|i: int|
                0 <= i < old(errors)@.len() ==> final(errors)@[i] == old(errors)@[i],
            !old(self).panic_mode ==> final(errors)@.len() + final(self).owed() >= old(errors)@.len()
                + old(self).owed(),
    {
        if self.check(kind) {
            Some(self.advance(errors))
        } else {
            None
        }
    }

    /// Takes the token that comes next if it is of kind `kind`, and hands
    /// back the one that comes next then; reports the error `msg`
    /// otherwise.
    pub fn consume(&mut self, kind: TokenKind, msg: &str, errors: &mut Vec<Error>) -> (taken:
        Result<Token, ()>)
        requires
            old(self).wf(),
        ensures
            final(self).wf(),
            taken.is_ok() ==> taken.unwrap().kind == final(self).current.kind
                && taken.unwrap().text@ == final(self).current.text@ && taken.unwrap().line
                == final(self).current.line,
            taken.is_ok() == (old(self).current.kind == kind),
            taken.is_ok() ==> final(self).previous == old(self).current && Self::advanced(
                old(self),
                final(self),
            ),
            taken.is_err() ==> *final(self) == *old(self) && final(errors)@.len() == old(errors)@.len() + 1 && final(errors)@.last().message@ == msg.spec_bytes() && final(errors)@.last().line == old(self).current.line,
            taken.is_err() ==> error_views(final(errors)@) == error_views(old(errors)@).push(
                ErrorView {
                    line: old(self).current.line,
                    place: location_text(old(self).current.kind, old(self).current.text@),
                    message: msg.spec_bytes(),
                },
            ),
            final(self).panic_mode == old(self).panic_mode,
            final(self).scanner.source == old(self).scanner.source,
            final(self).measure() <= old(self).measure(),
            taken.is_ok() && kind != TokenKind::Eof ==> final(self).measure() < old(self).measure(),
            final(errors)@.len() >= old(errors)@.len(),
            forall|i: int|
                0 <= i < old(errors)@.len() ==> final(errors)@[i] == old(errors)@[i],
            !old(self).panic_mode ==> final(errors)@.len() + final(self).owed() >= old(errors)@.len()
                + old(self).owed(),
    {
        if self.check(kind) {
            Ok(self.advance(errors))
        } else {
            let error = self.error_at_current(msg);
            let ghost view = error@;
            errors.push(error);
            proof {
                assert(error_views(errors@) =~= error_views(old(errors)@).push(view));
            }
            Err(())
        }
    }

    /// The error `msg` at the token just taken.
    pub fn error(&self, msg: &str) -> (error: Error)
        ensures
            error.line == self.previous.line,
            error.message@ == msg.spec_bytes(),
            location_text(error.at().0, error.at().1) == location_text(
                self.previous.kind,
                self.previous.text@,
            ),
    {
        error_at(&self.previous, msg)
    }

    /// The error `msg` at the token that comes next.
    pub fn error_at_current(&self, msg: &str) -> (error: Error)
        ensures
            error.line == self.current.line,
            error.message@ == msg.spec_bytes(),
            location_text(error.at().0, error.at().1) == location_text(
                self.current.kind,
                self.current.text@,
            ),
    {
        error_at(&self.current, msg)
    }
}

} // verus!
