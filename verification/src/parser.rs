//! The parser skeleton: walks the token stream from the back, accepting
//! only function declarations at the top level.

use vstd::prelude::*;

use crate::ast;
use crate::lexer::{Token, spec_span, spec_token_eq, token_eq};

verus! {

/// What can go wrong while parsing.
#[derive(Debug, Clone, Copy, PartialEq, Eq, Structural)]
pub enum ParserError {
    /// A top-level token that is not a function declaration.
    FailedTopLevel,
    /// A malformed function declaration.
    FailedFunction,
    /// An expected token that carries no convertible payload.
    ConversionError,
    /// A token other than the expected one, or no token at all.
    UnexpectedToken,
}

/// What the top-level walk returns.  Tokens are drawn from the end of the
/// stream; each must be a function keyword, whose declaration skeleton
/// consumes one further token and whose own failure is discarded; the
/// first non-function token aborts the pass, and an empty stream parses.
pub open spec fn spec_parse(src: Seq<Token>) -> Result<(), ParserError>
    decreases src.len(),
{
    if src.len() == 0 {
        Ok(())
    } else if src.last() matches Token::Function(_) {
        let rest = src.drop_last();
        if rest.len() > 0 {
            spec_parse(rest.drop_last())
        } else {
            spec_parse(rest)
        }
    } else {
        Err(ParserError::FailedTopLevel)
    }
}

/// The parser's state: the remaining tokens (consumed from the back) and
/// the tree built so far.
pub struct Parser {
    source: Vec<Token>,
    ast: ast::Ast,
}

impl Parser {
    /// The remaining tokens.
    pub closed spec fn spec_source(&self) -> Seq<Token> {
        self.source@
    }

    /// A parser over the given tokens.
    pub fn new(source: Vec<Token>) -> (p: Parser)
        ensures
            p.spec_source() == source@,
    {
        Parser { source, ast: ast::Ast { root: Vec::new() } }
    }

    /// Take the next token, from the back of the stream.
    fn next(&mut self) -> (r: Option<Token>)
        ensures
            if old(self).spec_source().len() > 0 {
                r == Some(old(self).spec_source().last()) && final(self).spec_source() == old(
                    self,
                ).spec_source().drop_last()
            } else {
                r is None && final(self).spec_source() == old(self).spec_source()
            },
    {
        self.source.pop()
    }

    /// Look at the next token without taking it.
    fn peek(&self) -> (r: Result<&Token, ParserError>)
        ensures
            if self.spec_source().len() > 0 {
                r matches Ok(t) && *t == self.spec_source().last()
            } else {
                r matches Err(e) && e == ParserError::UnexpectedToken
            },
    {
        let n = self.source.len();
        if n > 0 {
            Ok(&self.source[n - 1])
        } else {
            Err(ParserError::UnexpectedToken)
        }
    }

    /// Take the next token and demand it equal `token`: a matching number
    /// or identifier is handed back, a matching token of any other kind
    /// has no payload to convert, and anything else is unexpected.
    fn expect(&mut self, token: Token) -> (r: Result<Token, ParserError>)
        ensures
            ({
                let src = old(self).spec_source();
                if src.len() == 0 {
                    r matches Err(e) && e == ParserError::UnexpectedToken && final(self).spec_source() == src
                } else {
                    final(self).spec_source() == src.drop_last() && (if spec_token_eq(
                        src.last(),
                        token,
                    ) {
                        if src.last() matches Token::Number(_) || src.last()
                            matches Token::Identifier(_) {
                            r == Ok::<Token, ParserError>(src.last())
                        } else {
                            r matches Err(e) && e == ParserError::ConversionError
                        }
                    } else {
                        r matches Err(e) && e == ParserError::UnexpectedToken
                    })
                }
            }),
    {
        match self.next() {
            Some(t) => {
                if token_eq(&t, &token) {
                    match t {
                        Token::Number(n) => Ok(Token::Number(n)),
                        Token::Identifier(s) => Ok(Token::Identifier(s)),
                        _ => Err(ParserError::ConversionError),
                    }
                } else {
                    Err(ParserError::UnexpectedToken)
                }
            },
            None => Err(ParserError::UnexpectedToken),
        }
    }

    /// Parse one function declaration; only the leading keyword is
    /// recognized so far.
    fn parse_function(&mut self) -> (r: Result<(), ParserError>)
        ensures
            final(self).spec_source().len() <= old(self).spec_source().len(),
            ({
                let src = old(self).spec_source();
                if src.len() == 0 {
                    r matches Err(e) && e == ParserError::UnexpectedToken && final(self).spec_source() == src
                } else {
                    final(self).spec_source() == src.drop_last() && (if spec_token_eq(
                        src.last(),
                        Token::Function(spec_span(0, 0)),
                    ) {
                        r matches Err(e) && e == ParserError::ConversionError
                    } else {
                        r matches Err(e) && e == ParserError::UnexpectedToken
                    })
                }
            }),
    {
        let wanted = Token::Function(0..0);
        proof {
            assert(wanted == Token::Function(spec_span(0, 0)));
        }
        match self.expect(wanted) {
            Ok(_) => Ok(()),
            Err(e) => Err(e),
        }
    }

    /// Walk the top-level tokens: every one must open a function
    /// declaration; anything else aborts the pass.
    #[verifier::loop_isolation(false)]
    fn parse_toplevel(&mut self) -> (r: Result<(), ParserError>)
        ensures
            r == spec_parse(old(self).spec_source()),
            r is Ok ==> final(self).spec_source().len() == 0,
    {
        let ghost src0 = self.spec_source();
        loop
            invariant
                spec_parse(src0) == spec_parse(self.spec_source()),
            decreases self.spec_source().len(),
        {
            match self.next() {
                Some(tok) => {
                    match tok {
                        Token::Function(_) => {
                            let _ = self.parse_function();
                        },
                        _ => {
                            return Err(ParserError::FailedTopLevel);
                        },
                    }
                },
                None => {
                    return Ok(());
                },
            }
        }
    }

    /// Run the parser over its tokens: `Ok` exactly when every drawn token
    /// opened a function declaration (an empty stream parses), and the
    /// stream is exhausted on success.
    pub fn process(&mut self) -> (r: Result<(), ParserError>)
        ensures
            r == spec_parse(old(self).spec_source()),
            r is Ok ==> final(self).spec_source().len() == 0,
    {
        self.parse_toplevel()
    }
}

} // verus!
