//! The parser: recursive descent with single-token lookahead over the token
//! sequence the tokenizer produces, building the AST top-down, with no
//! backtracking; any sub-rule failure short-circuits the whole parse.

use vstd::prelude::*;

use crate::ast::CBlock;
use crate::ast::CDecl;
use crate::ast::CExpr;
use crate::ast::CProgram;
use crate::ast::CStm;
use crate::ast::Name;
use crate::ast::SpecDecl;
use crate::ast::Type;
use crate::lexer::SpecToken;
use crate::lexer::Token;
use crate::lexer::wf_tokens;

verus! {

/// A syntactic failure: structured, recoverable, and describing the first
/// point of failure; no partial program is produced.
#[derive(Debug, Clone, PartialEq, Eq)]
pub enum ParseError {
    NameExpected,
    NumberExpected,
    TypeExpected,
    Expected { expected_token: Token, token: Token },
}

/// The mathematical value of a `ParseError`.
pub enum SpecParseError {
    NameExpected,
    NumberExpected,
    TypeExpected,
    Expected { expected_token: SpecToken, token: SpecToken },
}

impl View for ParseError {
    type V = SpecParseError;

    open spec fn view(&self) -> SpecParseError {
        match self {
            ParseError::NameExpected => SpecParseError::NameExpected,
            ParseError::NumberExpected => SpecParseError::NumberExpected,
            ParseError::TypeExpected => SpecParseError::TypeExpected,
            ParseError::Expected { expected_token, token } => (SpecParseError::Expected {
                expected_token: expected_token@,
                token: token@,
            }),
        }
    }
}

impl DeepView for ParseError {
    type V = SpecParseError;

    open spec fn deep_view(&self) -> SpecParseError {
        self.view()
    }
}

/// The mathematical value of a `CExpr`, re-exported for contracts.
pub use crate::ast::SpecExpr;

/// The mathematical value of a `CStm`, re-exported for contracts.
pub use crate::ast::SpecStm;

/// The token at position `i`, the lookahead of every grammar rule; reading
/// at or past the end of the sequence gives the end-marker, which on a
/// well-formed sequence stands only at the end anyway.
pub open spec fn tok_at(ts: Seq<SpecToken>, i: int) -> SpecToken {
    if 0 <= i < ts.len() {
        ts[i]
    } else {
        SpecToken::Eof
    }
}

/// `expr := NUMBER`. On success, the expression and the position after it.
pub open spec fn spec_parse_expr(ts: Seq<SpecToken>, i: int) -> Result<
    (SpecExpr, int),
    SpecParseError,
> {
    match tok_at(ts, i) {
        SpecToken::Number(n) => Ok((SpecExpr::Number(n), i + 1)),
        _ => Err(SpecParseError::NumberExpected),
    }
}

/// `type := 'int'`. On success, the type name and the position after it.
pub open spec fn spec_parse_type(ts: Seq<SpecToken>, i: int) -> Result<
    (Seq<char>, int),
    SpecParseError,
> {
    if tok_at(ts, i) == SpecToken::Keyword("int"@) {
        Ok(("int"@, i + 1))
    } else {
        Err(SpecParseError::TypeExpected)
    }
}

/// `name := IDENTIFIER`. On success, the name and the position after it.
pub open spec fn spec_parse_name(ts: Seq<SpecToken>, i: int) -> Result<
    (Seq<char>, int),
    SpecParseError,
> {
    match tok_at(ts, i) {
        SpecToken::Identifier(nm) => Ok((nm, i + 1)),
        _ => Err(SpecParseError::NameExpected),
    }
}

/// `stmt := 'return' expr`.
pub open spec fn spec_parse_stm(ts: Seq<SpecToken>, i: int) -> Result<
    (SpecStm, int),
    SpecParseError,
> {
    if tok_at(ts, i) == SpecToken::Keyword("return"@) {
        match spec_parse_expr(ts, i + 1) {
            Ok((e, j)) => Ok((SpecStm::Return(e), j)),
            Err(pe) => Err(pe),
        }
    } else {
        Err(
            SpecParseError::Expected {
                expected_token: SpecToken::Keyword("return"@),
                token: tok_at(ts, i),
            },
        )
    }
}

/// The statements of a block, after its opening brace: after each
/// statement, a `;` continues the scan and the closing brace ends it, so
/// two statements need a `;` between them while a trailing `;` before the
/// brace is optional; an immediately closing brace gives the empty block.
/// On success, the statements and the position after the closing brace.
pub open spec fn spec_parse_stms(ts: Seq<SpecToken>, i: int) -> Result<
    (Seq<SpecStm>, int),
    SpecParseError,
>
    decreases ts.len() - i,
    when 0 <= i <= ts.len()
{
    if tok_at(ts, i) == SpecToken::RBrace {
        Ok((Seq::empty(), i + 1))
    } else {
        match spec_parse_stm(ts, i) {
            Ok((stm, j)) => {
                if tok_at(ts, j) == SpecToken::Semicolon {
                    match spec_parse_stms(ts, j + 1) {
                        Ok((rest, k)) => Ok((seq![stm] + rest, k)),
                        Err(pe) => Err(pe),
                    }
                } else if tok_at(ts, j) == SpecToken::RBrace {
                    Ok((seq![stm], j + 1))
                } else {
                    Err(
                        SpecParseError::Expected {
                            expected_token: SpecToken::RBrace,
                            token: tok_at(ts, j),
                        },
                    )
                }
            },
            Err(pe) => Err(pe),
        }
    }
}

/// `block := '{' statements`, the statement scan consuming the closing
/// brace.
pub open spec fn spec_parse_block(ts: Seq<SpecToken>, i: int) -> Result<
    (Seq<SpecStm>, int),
    SpecParseError,
> {
    if tok_at(ts, i) == SpecToken::LBrace {
        spec_parse_stms(ts, i + 1)
    } else {
        Err(SpecParseError::Expected { expected_token: SpecToken::LBrace, token: tok_at(ts, i) })
    }
}

/// `decl := type name '(' ')' block`; the parameter list is always empty.
pub open spec fn spec_parse_decl(ts: Seq<SpecToken>, i: int) -> Result<
    (SpecDecl, int),
    SpecParseError,
> {
    match spec_parse_type(ts, i) {
        Ok((tp, i1)) => match spec_parse_name(ts, i1) {
            Ok((nm, i2)) => {
                if tok_at(ts, i2) == SpecToken::LParen {
                    if tok_at(ts, i2 + 1) == SpecToken::RParen {
                        match spec_parse_block(ts, i2 + 2) {
                            Ok((body, j)) => Ok(
                                (
                                    SpecDecl::Fun {
                                        return_tp: tp,
                                        name: nm,
                                        parameters: Seq::empty(),
                                        body,
                                    },
                                    j,
                                ),
                            ),
                            Err(pe) => Err(pe),
                        }
                    } else {
                        Err(
                            SpecParseError::Expected {
                                expected_token: SpecToken::RParen,
                                token: tok_at(ts, i2 + 1),
                            },
                        )
                    }
                } else {
                    Err(
                        SpecParseError::Expected {
                            expected_token: SpecToken::LParen,
                            token: tok_at(ts, i2),
                        },
                    )
                }
            },
            Err(pe) => Err(pe),
        },
        Err(pe) => Err(pe),
    }
}

/// A successful statement scan moves forward, stays within the sequence,
/// and the token just before its end position is the closing brace.
pub proof fn lemma_spec_parse_stms_advances(ts: Seq<SpecToken>, i: int)
    requires
        0 <= i <= ts.len(),
    ensures
        spec_parse_stms(ts, i) matches Ok((stms, k)) ==> i < k <= ts.len() && ts[k - 1]
            == SpecToken::RBrace,
    decreases ts.len() - i,
{
    if tok_at(ts, i) != SpecToken::RBrace {
        if let Ok((stm, j)) = spec_parse_stm(ts, i) {
            if tok_at(ts, j) == SpecToken::Semicolon {
                lemma_spec_parse_stms_advances(ts, j + 1);
            }
        }
    }
}

/// A successful declaration parse moves forward, stays within the
/// sequence, and ends just after the closing brace of the body.
pub proof fn lemma_spec_parse_decl_advances(ts: Seq<SpecToken>, i: int)
    requires
        0 <= i <= ts.len(),
    ensures
        spec_parse_decl(ts, i) matches Ok((d, j)) ==> i < j <= ts.len() && ts[j - 1]
            == SpecToken::RBrace,
{
    if let Ok((d, j)) = spec_parse_decl(ts, i) {
        // the body's statement scan starts after `type name ( ) {`
        lemma_spec_parse_stms_advances(ts, i + 5);
    }
}

/// `program := decl+`, repeated until the end-marker: parse one
/// declaration; if the next token is not the end-marker, unconditionally
/// consume that one token before parsing the next declaration. (That
/// discarded token is not checked against any separator rule; the grammar
/// is deliberately kept as found.)
pub open spec fn spec_parse_decls(ts: Seq<SpecToken>, i: int) -> Result<
    Seq<SpecDecl>,
    SpecParseError,
>
    decreases ts.len() - i,
    when 0 <= i <= ts.len()
{
    match spec_parse_decl(ts, i) {
        Ok((d, j)) => {
            if tok_at(ts, j) == SpecToken::Eof {
                Ok(seq![d])
            } else {
                {
                    proof {
                        lemma_spec_parse_decl_advances(ts, i);
                    }
                    match spec_parse_decls(ts, j + 1) {
                        Ok(ds) => Ok(seq![d] + ds),
                        Err(pe) => Err(pe),
                    }
                }
            }
        },
        Err(pe) => Err(pe),
    }
}

/// The whole program: the declaration scan started at the first token.
pub open spec fn spec_parse_program(ts: Seq<SpecToken>) -> Result<Seq<SpecDecl>, SpecParseError> {
    spec_parse_decls(ts, 0)
}

/// How an expression parse relates to its model.
pub open spec fn expr_result_matches(
    r: Result<CExpr, ParseError>,
    m: Result<(SpecExpr, int), SpecParseError>,
    new_i: int,
) -> bool {
    match m {
        Ok((e, j)) => r matches Ok(ce) && ce.deep_view() == e && new_i == j,
        Err(pe) => r matches Err(x) && x@ == pe,
    }
}

/// How a type or name parse relates to its model.
pub open spec fn text_result_matches(
    r: Result<String, ParseError>,
    m: Result<(Seq<char>, int), SpecParseError>,
    new_i: int,
) -> bool {
    match m {
        Ok((w, j)) => r matches Ok(s) && s@ == w && new_i == j,
        Err(pe) => r matches Err(x) && x@ == pe,
    }
}

/// How a statement parse relates to its model.
pub open spec fn stm_result_matches(
    r: Result<CStm, ParseError>,
    m: Result<(SpecStm, int), SpecParseError>,
    new_i: int,
) -> bool {
    match m {
        Ok((stm, j)) => r matches Ok(cs) && cs.deep_view() == stm && new_i == j,
        Err(pe) => r matches Err(x) && x@ == pe,
    }
}

/// How a block parse relates to its model.
pub open spec fn block_result_matches(
    r: Result<CBlock, ParseError>,
    m: Result<(Seq<SpecStm>, int), SpecParseError>,
    new_i: int,
) -> bool {
    match m {
        Ok((stms, j)) => r matches Ok(v) && v.deep_view() == stms && new_i == j,
        Err(pe) => r matches Err(x) && x@ == pe,
    }
}

/// How a declaration parse relates to its model.
pub open spec fn decl_result_matches(
    r: Result<CDecl, ParseError>,
    m: Result<(SpecDecl, int), SpecParseError>,
    new_i: int,
) -> bool {
    match m {
        Ok((d, j)) => r matches Ok(cd) && cd.deep_view() == d && new_i == j,
        Err(pe) => r matches Err(x) && x@ == pe,
    }
}

/// How a whole-program parse relates to its model.
pub open spec fn decls_result_matches(
    r: Result<CProgram, ParseError>,
    m: Result<Seq<SpecDecl>, SpecParseError>,
) -> bool {
    match m {
        Ok(ds) => r matches Ok(p) && p.deep_view() == ds,
        Err(pe) => r matches Err(x) && x@ == pe,
    }
}

/// Declarations already built, followed by the outcome of the remaining
/// declaration scan.
pub open spec fn decls_combine(
    prefix: Seq<SpecDecl>,
    m: Result<Seq<SpecDecl>, SpecParseError>,
) -> Result<Seq<SpecDecl>, SpecParseError> {
    match m {
        Ok(ds) => Ok(prefix + ds),
        Err(pe) => Err(pe),
    }
}

/// Statements already built, followed by the outcome of the remaining
/// statement scan.
pub open spec fn stms_combine(
    prefix: Seq<SpecStm>,
    m: Result<(Seq<SpecStm>, int), SpecParseError>,
) -> Result<(Seq<SpecStm>, int), SpecParseError> {
    match m {
        Ok((rest, k)) => Ok((prefix + rest, k)),
        Err(pe) => Err(pe),
    }
}

/// An owned copy of a token with the same value.
fn clone_token(t: &Token) -> (r: Token)
    ensures
        r@ == t@,
{
    match t {
        Token::LBRACE => Token::LBRACE,
        Token::RBRACE => Token::RBRACE,
        Token::LPAREN => Token::LPAREN,
        Token::RPAREN => Token::RPAREN,
        Token::L_SQUARE_BRACKET => Token::L_SQUARE_BRACKET,
        Token::R_SQUARE_BRACKET => Token::R_SQUARE_BRACKET,
        Token::KEYWORD(s) => Token::KEYWORD(s.clone()),
        Token::IDENTIFIER(s) => Token::IDENTIFIER(s.clone()),
        Token::NUMBER(n) => Token::NUMBER(*n),
        Token::B_AND => Token::B_AND,
        Token::B_OR => Token::B_OR,
        Token::EQUAL => Token::EQUAL,
        Token::PLUS => Token::PLUS,
        Token::MINUS => Token::MINUS,
        Token::TIMES => Token::TIMES,
        Token::SLASH => Token::SLASH,
        Token::PERCENT => Token::PERCENT,
        Token::AMPERSAND => Token::AMPERSAND,
        Token::LESS => Token::LESS,
        Token::GREATER => Token::GREATER,
        Token::VERTICAL_BAR => Token::VERTICAL_BAR,
        Token::XOR => Token::XOR,
        Token::SHL => Token::SHL,
        Token::SHR => Token::SHR,
        Token::BANG => Token::BANG,
        Token::TILDE => Token::TILDE,
        Token::COMMA => Token::COMMA,
        Token::DOT => Token::DOT,
        Token::QUESTION_MARK => Token::QUESTION_MARK,
        Token::QUOTE => Token::QUOTE,
        Token::DOUBLE_QUOTE => Token::DOUBLE_QUOTE,
        Token::COLON => Token::COLON,
        Token::SEMICOLON => Token::SEMICOLON,
        Token::EOF => Token::EOF,
    }
}

/// Whether two tokens have the same value, text of keywords and
/// identifiers and value of numbers included.
fn token_eq(a: &Token, b: &Token) -> (r: bool)
    ensures
        r == (a@ == b@),
{
    match (a, b) {
        (Token::LBRACE, Token::LBRACE) => true,
        (Token::RBRACE, Token::RBRACE) => true,
        (Token::LPAREN, Token::LPAREN) => true,
        (Token::RPAREN, Token::RPAREN) => true,
        (Token::L_SQUARE_BRACKET, Token::L_SQUARE_BRACKET) => true,
        (Token::R_SQUARE_BRACKET, Token::R_SQUARE_BRACKET) => true,
        (Token::KEYWORD(x), Token::KEYWORD(y)) => *x == *y,
        (Token::IDENTIFIER(x), Token::IDENTIFIER(y)) => *x == *y,
        (Token::NUMBER(x), Token::NUMBER(y)) => *x == *y,
        (Token::B_AND, Token::B_AND) => true,
        (Token::B_OR, Token::B_OR) => true,
        (Token::EQUAL, Token::EQUAL) => true,
        (Token::PLUS, Token::PLUS) => true,
        (Token::MINUS, Token::MINUS) => true,
        (Token::TIMES, Token::TIMES) => true,
        (Token::SLASH, Token::SLASH) => true,
        (Token::PERCENT, Token::PERCENT) => true,
        (Token::AMPERSAND, Token::AMPERSAND) => true,
        (Token::LESS, Token::LESS) => true,
        (Token::GREATER, Token::GREATER) => true,
        (Token::VERTICAL_BAR, Token::VERTICAL_BAR) => true,
        (Token::XOR, Token::XOR) => true,
        (Token::SHL, Token::SHL) => true,
        (Token::SHR, Token::SHR) => true,
        (Token::BANG, Token::BANG) => true,
        (Token::TILDE, Token::TILDE) => true,
        (Token::COMMA, Token::COMMA) => true,
        (Token::DOT, Token::DOT) => true,
        (Token::QUESTION_MARK, Token::QUESTION_MARK) => true,
        (Token::QUOTE, Token::QUOTE) => true,
        (Token::DOUBLE_QUOTE, Token::DOUBLE_QUOTE) => true,
        (Token::COLON, Token::COLON) => true,
        (Token::SEMICOLON, Token::SEMICOLON) => true,
        (Token::EOF, Token::EOF) => true,
        _ => false,
    }
}

/// The parser's state: the token sequence and the cursor, moved forward
/// one token at a time with single-token lookahead.
struct ParseState {
    i: usize,
    tokens: Vec<Token>,
}

impl ParseState {
    /// The modelled token sequence.
    spec fn toks(self) -> Seq<SpecToken> {
        self.tokens.deep_view()
    }

    /// The state is usable: the tokens are well formed and the cursor has
    /// not passed the end-marker.
    spec fn wf(self) -> bool {
        wf_tokens(self.toks()) && self.i < self.tokens.len()
    }

    fn new(tokens: Vec<Token>) -> (st: ParseState)
        ensures
            st.toks() == tokens.deep_view(),
            st.i == 0,
    {
        let i: usize = 0;
        ParseState { i, tokens }
    }

    /// The current token, without consuming it.
    fn peek(&self) -> (t: Token)
        requires
            self.wf(),
        ensures
            t@ == tok_at(self.toks(), self.i as int),
    {
        clone_token(&self.tokens[self.i])
    }

    /// Consume one token.
    fn skip(&mut self)
        requires
            old(self).i < old(self).tokens.len(),
        ensures
            final(self).tokens == old(self).tokens,
            final(self).i == old(self).i + 1,
    {
        self.i = self.i + 1;
    }

    /// The current token, consuming it.
    fn get_token(&mut self) -> (t: Token)
        requires
            old(self).wf(),
        ensures
            final(self).tokens == old(self).tokens,
            final(self).i == old(self).i + 1,
            t@ == tok_at(old(self).toks(), old(self).i as int),
    {
        let token = self.peek();
        self.skip();
        token
    }

    /// Consume one token, which must equal the expected one; the error
    /// carries both the expectation and what was found.
    fn expect_token(&mut self, expected_token: Token) -> (r: Result<(), ParseError>)
        requires
            old(self).wf(),
        ensures
            final(self).tokens == old(self).tokens,
            final(self).i == old(self).i + 1,
            ({
                let found = tok_at(old(self).toks(), old(self).i as int);
                match r {
                    Ok(()) => found == expected_token@,
                    Err(e) => found != expected_token@ && e@ == (SpecParseError::Expected {
                        expected_token: expected_token@,
                        token: found,
                    }),
                }
            }),
    {
        let token = self.get_token();
        if token_eq(&token, &expected_token) {
            Ok(())
        } else {
            Err(ParseError::Expected { expected_token, token })
        }
    }

    /// `expr := NUMBER`. Exactly one token is consumed, whether or not
    /// it was a number.
    fn parse_expr(&mut self) -> (r: Result<CExpr, ParseError>)
        requires
            old(self).wf(),
        ensures
            final(self).tokens == old(self).tokens,
            final(self).i == old(self).i + 1,
            r is Ok ==> final(self).wf(),
            expr_result_matches(
                r,
                spec_parse_expr(old(self).toks(), old(self).i as int),
                final(self).i as int,
            ),
    {
        match self.get_token() {
            Token::NUMBER(number) => Ok(CExpr::Number(number)),
            _ => Err(ParseError::NumberExpected),
        }
    }

    /// `type := 'int'`. Exactly one token is consumed, whether or not
    /// it was the accepted type keyword.
    fn parse_type(&mut self) -> (r: Result<Type, ParseError>)
        requires
            old(self).wf(),
        ensures
            final(self).tokens == old(self).tokens,
            final(self).i == old(self).i + 1,
            r is Ok ==> final(self).wf(),
            text_result_matches(
                r,
                spec_parse_type(old(self).toks(), old(self).i as int),
                final(self).i as int,
            ),
    {
        let token = self.get_token();
        let is_int = match &token {
            Token::KEYWORD(s) => *s == "int".to_owned(),
            _ => false,
        };
        if is_int {
            Ok("int".to_owned())
        } else {
            Err(ParseError::TypeExpected)
        }
    }

    /// `name := IDENTIFIER`. Exactly one token is consumed, whether or
    /// not it was an identifier.
    fn parse_name(&mut self) -> (r: Result<Name, ParseError>)
        requires
            old(self).wf(),
        ensures
            final(self).tokens == old(self).tokens,
            final(self).i == old(self).i + 1,
            r is Ok ==> final(self).wf(),
            text_result_matches(
                r,
                spec_parse_name(old(self).toks(), old(self).i as int),
                final(self).i as int,
            ),
    {
        match self.get_token() {
            Token::IDENTIFIER(name) => Ok(name),
            _ => Err(ParseError::NameExpected),
        }
    }

    /// `stmt := 'return' expr`. When the lookahead is not the `return`
    /// keyword nothing is consumed; otherwise the keyword and the token
    /// after it are consumed, whether or not that token was a number.
    fn parse_stm(&mut self) -> (r: Result<CStm, ParseError>)
        requires
            old(self).wf(),
        ensures
            final(self).tokens == old(self).tokens,
            tok_at(old(self).toks(), old(self).i as int) != SpecToken::Keyword("return"@)
                ==> final(self).i == old(self).i,
            tok_at(old(self).toks(), old(self).i as int) == SpecToken::Keyword("return"@)
                ==> final(self).i == old(self).i + 2,
            r is Ok ==> final(self).wf(),
            stm_result_matches(
                r,
                spec_parse_stm(old(self).toks(), old(self).i as int),
                final(self).i as int,
            ),
    {
        let t = self.peek();
        let is_return = match &t {
            Token::KEYWORD(s) => *s == "return".to_owned(),
            _ => false,
        };
        if is_return {
            self.skip();
            match self.parse_expr() {
                Ok(expr) => Ok(CStm::Return(expr)),
                Err(pe) => Err(pe),
            }
        } else {
            Err(
                ParseError::Expected {
                    expected_token: Token::KEYWORD("return".to_owned()),
                    token: t,
                },
            )
        }
    }

    /// `block := '{' ...`: statements separated by `;`, ended by the
    /// closing brace; a trailing `;` is optional and the empty block is
    /// legal.
    fn parse_block(&mut self) -> (r: Result<CBlock, ParseError>)
        requires
            old(self).wf(),
        ensures
            final(self).tokens == old(self).tokens,
            r is Ok ==> final(self).wf(),
            block_result_matches(
                r,
                spec_parse_block(old(self).toks(), old(self).i as int),
                final(self).i as int,
            ),
    {
        let ghost ts = self.toks();
        match self.expect_token(Token::LBRACE) {
            Ok(()) => {},
            Err(e) => {
                return Err(e);
            },
        }
        let mut stms: Vec<CStm> = Vec::new();
        let ghost start = self.i as int;
        loop
            invariant
                self.tokens == old(self).tokens,
                ts == old(self).toks(),
                wf_tokens(ts),
                self.i < self.tokens.len(),
                0 <= start <= ts.len(),
                spec_parse_block(ts, old(self).i as int) == spec_parse_stms(ts, start),
                stms_combine(stms.deep_view(), spec_parse_stms(ts, self.i as int))
                    == spec_parse_stms(ts, start),
            decreases ts.len() - self.i,
        {
            let ghost cur = self.i as int;
            let ghost pre = stms.deep_view();
            let t = self.peek();
            if matches!(t, Token::RBRACE) {
                self.skip();
                proof {
                    assert(pre + Seq::<SpecStm>::empty() =~= pre);
                }
                return Ok(stms);
            }
            let stm = match self.parse_stm() {
                Ok(stm) => stm,
                Err(e) => {
                    return Err(e);
                },
            };
            let ghost sv = stm.deep_view();
            stms.push(stm);
            let ghost j = self.i as int;
            proof {
                assert(stms.deep_view() =~= pre.push(sv));
            }
            let t2 = self.peek();
            if matches!(t2, Token::SEMICOLON) {
                self.skip();
                proof {
                    match spec_parse_stms(ts, j + 1) {
                        Ok((rest, k)) => {
                            assert(pre + (seq![sv] + rest) =~= pre.push(sv) + rest);
                        },
                        Err(pe) => {},
                    }
                }
            } else if matches!(t2, Token::RBRACE) {
                self.skip();
                proof {
                    assert(pre + seq![sv] =~= pre.push(sv));
                }
                return Ok(stms);
            } else {
                return Err(ParseError::Expected { expected_token: Token::RBRACE, token: t2 });
            }
        }
    }

    /// `decl := type name '(' ')' block`; the parameter list is accepted
    /// as empty.
    fn parse_decl(&mut self) -> (r: Result<CDecl, ParseError>)
        requires
            old(self).wf(),
        ensures
            final(self).tokens == old(self).tokens,
            r is Ok ==> final(self).wf(),
            decl_result_matches(
                r,
                spec_parse_decl(old(self).toks(), old(self).i as int),
                final(self).i as int,
            ),
    {
        let return_tp = match self.parse_type() {
            Ok(tp) => tp,
            Err(e) => {
                return Err(e);
            },
        };
        let name = match self.parse_name() {
            Ok(nm) => nm,
            Err(e) => {
                return Err(e);
            },
        };
        match self.expect_token(Token::LPAREN) {
            Ok(()) => {},
            Err(e) => {
                return Err(e);
            },
        }
        let parameters: Vec<(Type, Name)> = Vec::new();
        match self.expect_token(Token::RPAREN) {
            Ok(()) => {},
            Err(e) => {
                return Err(e);
            },
        }
        let body = match self.parse_block() {
            Ok(b) => b,
            Err(e) => {
                return Err(e);
            },
        };
        let decl = CDecl::Fun { return_tp, name, parameters, body };
        proof {
            assert(decl.deep_view() matches SpecDecl::Fun { parameters: ps, .. } ==> ps
                =~= Seq::<(Seq<char>, Seq<char>)>::empty());
        }
        Ok(decl)
    }

    /// `program := decl+`: one declaration, then, while the next token is
    /// not the end-marker, consume that one token and parse another
    /// declaration.
    fn parse_decls(&mut self) -> (r: Result<CProgram, ParseError>)
        requires
            old(self).wf(),
        ensures
            final(self).tokens == old(self).tokens,
            decls_result_matches(r, spec_parse_decls(old(self).toks(), old(self).i as int)),
    {
        let ghost ts = self.toks();
        let ghost start = self.i as int;
        let mut result: Vec<CDecl> = Vec::new();
        loop
            invariant
                self.tokens == old(self).tokens,
                ts == old(self).toks(),
                wf_tokens(ts),
                self.i < self.tokens.len(),
                0 <= start <= ts.len(),
                start == old(self).i as int,
                decls_combine(result.deep_view(), spec_parse_decls(ts, self.i as int))
                    == spec_parse_decls(ts, start),
            decreases ts.len() - self.i,
        {
            let ghost cur = self.i as int;
            let ghost pre = result.deep_view();
            proof {
                lemma_spec_parse_decl_advances(ts, cur);
            }
            let d = match self.parse_decl() {
                Ok(d) => d,
                Err(e) => {
                    return Err(e);
                },
            };
            let ghost dv = d.deep_view();
            result.push(d);
            proof {
                assert(result.deep_view() =~= pre.push(dv));
            }
            let t = self.peek();
            if matches!(t, Token::EOF) {
                proof {
                    assert(pre + seq![dv] =~= pre.push(dv));
                }
                return Ok(result);
            }
            self.skip();
            proof {
                match spec_parse_decls(ts, self.i as int) {
                    Ok(ds) => {
                        assert(pre + (seq![dv] + ds) =~= pre.push(dv) + ds);
                    },
                    Err(pe) => {},
                }
            }
        }
    }
}

/// Parse a well-formed token sequence into the program it describes, or
/// into the structured error of the first point of failure: the result is
/// exactly what `spec_parse_program` gives for the sequence.
pub fn parse_program(tokens: Vec<Token>) -> (r: Result<CProgram, ParseError>)
    requires
        wf_tokens(tokens.deep_view()),
    ensures
        decls_result_matches(r, spec_parse_program(tokens.deep_view())),
{
    let mut state = ParseState::new(tokens);
    state.parse_decls()
}

} // verus!
