use vstd::prelude::*;

use crate::lexer::{Token, TokenV};

verus! {

/// A half-open range of character positions into the source buffer.
#[derive(Clone, Copy, Debug, PartialEq, Eq, Structural)]
pub struct Span {
    pub start: usize,
    pub end: usize,
}

/// A character the tokenizer has no rule for, with its position. The
/// tokenizer itself never fails: it emits an error token instead, which then
/// fails whichever parser rule expected something specific.
#[derive(Clone, Debug, PartialEq, Eq)]
pub struct LexerError(pub Span);

impl View for LexerError {
    type V = Span;

    open spec fn view(&self) -> Span {
        self.0
    }
}

/// Mathematical model of a [`ParserError`]: the same variants over sequences
/// of characters instead of heap strings.
pub enum ParserErrorV {
    ExpectedToken { expected: Seq<TokenV>, found: TokenV, span: Span },
    UnexpectedEOF { expected: Option<Seq<TokenV>>, span: Span },
    ExpectedEOF { found: TokenV, span: Span },
}

/// An error raised by the parser; the first one encountered aborts the whole
/// parse, no partial tree is ever returned.
#[derive(Clone, Debug, PartialEq, Eq)]
pub enum ParserError {
    /// A specific set of token kinds was required but a different token was found.
    ExpectedToken { expected: Vec<Token>, found: Token, span: Span },
    /// Another token was required but the stream was exhausted.
    UnexpectedEOF { expected: Option<Vec<Token>>, span: Span },
    /// The parse finished but unconsumed tokens remain.
    ExpectedEOF { found: Token, span: Span },
}

pub open spec fn tokens_view(ts: Seq<Token>) -> Seq<TokenV> {
    ts.map_values(|t: Token| t@)
}

impl View for ParserError {
    type V = ParserErrorV;

    open spec fn view(&self) -> ParserErrorV {
        match self {
            ParserError::ExpectedToken { expected, found, span } => ParserErrorV::ExpectedToken {
                expected: tokens_view(expected@),
                found: found@,
                span: *span,
            },
            ParserError::UnexpectedEOF { expected, span } => ParserErrorV::UnexpectedEOF {
                expected: match expected {
                    Some(ts) => Some(tokens_view(ts@)),
                    None => None,
                },
                span: *span,
            },
            ParserError::ExpectedEOF { found, span } => ParserErrorV::ExpectedEOF {
                found: found@,
                span: *span,
            },
        }
    }
}

impl ParserError {
    pub fn expected_eof_found(span: Span, found: Token) -> (r: Self)
        ensures
            r@ == (ParserErrorV::ExpectedEOF { found: found@, span }),
    {
        ParserError::ExpectedEOF { found, span }
    }

    pub fn expected_token_found(span: Span, expected: Vec<Token>, found: Token) -> (r: Self)
        ensures
            r@ == (ParserErrorV::ExpectedToken {
                expected: tokens_view(expected@),
                found: found@,
                span,
            }),
    {
        ParserError::ExpectedToken { span, expected, found }
    }

    pub fn unexpected_eof(span: Span, expected: Option<Vec<Token>>) -> (r: Self)
        ensures
            r@ == (ParserErrorV::UnexpectedEOF {
                expected: match expected {
                    Some(ts) => Some(tokens_view(ts@)),
                    None => None,
                },
                span,
            }),
    {
        ParserError::UnexpectedEOF { span, expected }
    }
}

/// Mathematical model of an [`Error`].
pub enum ErrorV {
    Parser(ParserErrorV),
    Lexer(Span),
}

/// Any failure of the pipeline.
#[derive(Clone, Debug, PartialEq, Eq)]
pub enum Error {
    Parser(ParserError),
    Lexer(LexerError),
}

impl View for Error {
    type V = ErrorV;

    open spec fn view(&self) -> ErrorV {
        match self {
            Error::Parser(e) => ErrorV::Parser(e@),
            Error::Lexer(e) => ErrorV::Lexer(e@),
        }
    }
}

// ---------------------------------------------------------------------------
// Rendering token sets for diagnostics.
// ---------------------------------------------------------------------------

/// The name of a token, with its slice where it carries one.
pub open spec fn token_desc(t: TokenV) -> Seq<char> {
    match t {
        TokenV::Indent => "Indent"@,
        TokenV::Dedent => "Dedent"@,
        TokenV::Newline => "Newline"@,
        TokenV::Text(s) => "Text(\""@ + s + "\")"@,
        TokenV::Quote(s) => "Quote(\""@ + s + "\")"@,
        TokenV::Dot => "Dot"@,
        TokenV::Hash => "Hash"@,
        TokenV::OpenParen => "OpenParen"@,
        TokenV::CloseParen => "CloseParen"@,
        TokenV::Equals => "Equals"@,
        TokenV::Comma => "Comma"@,
        TokenV::WhiteSpace => "WhiteSpace"@,
        TokenV::Error(s) => "Error(\""@ + s + "\")"@,
    }
}

/// The descriptions of the tokens from `i` on, joined with `, `.
pub open spec fn descs_join(ts: Seq<TokenV>, i: nat) -> Seq<char>
    decreases ts.len() - i,
{
    if i < ts.len() {
        (if i > 0 {
            ", "@
        } else {
            Seq::<char>::empty()
        }) + token_desc(ts[i as int]) + descs_join(ts, i + 1)
    } else {
        Seq::empty()
    }
}

/// What `any_of` renders: one token's description alone, several as
/// `any of [..]`.
pub open spec fn any_of_text(ts: Seq<TokenV>) -> Seq<char> {
    if ts.len() == 1 {
        token_desc(ts[0])
    } else {
        "any of ["@ + descs_join(ts, 0) + "]"@
    }
}

/// Render one token for a diagnostic.
fn token_describe(t: &Token) -> (r: String)
    ensures
        r@ == token_desc(t@),
{
    match t {
        Token::Indent => "Indent".to_owned(),
        Token::Dedent => "Dedent".to_owned(),
        Token::Newline => "Newline".to_owned(),
        Token::Text(s) => {
            let mut out = "Text(\"".to_owned();
            out.append(s.as_str());
            out.append("\")");
            proof {
                assert(out@ =~= token_desc(t@));
            }
            out
        },
        Token::Quote(s) => {
            let mut out = "Quote(\"".to_owned();
            out.append(s.as_str());
            out.append("\")");
            proof {
                assert(out@ =~= token_desc(t@));
            }
            out
        },
        Token::Dot => "Dot".to_owned(),
        Token::Hash => "Hash".to_owned(),
        Token::OpenParen => "OpenParen".to_owned(),
        Token::CloseParen => "CloseParen".to_owned(),
        Token::Equals => "Equals".to_owned(),
        Token::Comma => "Comma".to_owned(),
        Token::WhiteSpace => "WhiteSpace".to_owned(),
        Token::Error(s) => {
            let mut out = "Error(\"".to_owned();
            out.append(s.as_str());
            out.append("\")");
            proof {
                assert(out@ =~= token_desc(t@));
            }
            out
        },
    }
}

/// Render a set of expected tokens for a diagnostic: one token's description
/// alone, several as `any of [..]`.
pub fn any_of(things: &[Token]) -> (r: String)
    ensures
        r@ == any_of_text(tokens_view(things@)),
{
    let n = things.len();
    if n == 1 {
        token_describe(&things[0])
    } else {
        let mut out = "any of [".to_owned();
        let ghost head = out@;
        let mut i: usize = 0;
        while i < n
            invariant
                i <= n,
                n == things@.len(),
                out@ + descs_join(tokens_view(things@), i as nat) =~= head + descs_join(
                    tokens_view(things@),
                    0,
                ),
            decreases n - i,
        {
            let ghost prev = out@;
            if i > 0 {
                out.append(", ");
            }
            let d = token_describe(&things[i]);
            out.append(d.as_str());
            proof {
                assert(tokens_view(things@)[i as int] == things@[i as int]@);
                assert(descs_join(tokens_view(things@), i as nat) == (if i > 0 {
                    ", "@
                } else {
                    Seq::<char>::empty()
                }) + token_desc(tokens_view(things@)[i as int]) + descs_join(
                    tokens_view(things@),
                    i as nat + 1,
                ));
                assert(out@ + descs_join(tokens_view(things@), i as nat + 1) =~= prev
                    + descs_join(tokens_view(things@), i as nat));
            }
            i = i + 1;
        }
        out.append("]");
        proof {
            assert(out@ =~= any_of_text(tokens_view(things@)));
        }
        out
    }
}

} // verus!

