//! The tokenizer: it converts source text into an ordered sequence of tokens
//! terminated by a single end-of-stream marker, or reports the first lexical
//! failure as a recoverable error.
//!
//! The scan is specified by `spec_tokenize`, a recursive function over the
//! character sequence: skip whitespace (the Unicode `White_Space`
//! property); a letter (the Unicode `Alphabetic` property) or underscore
//! starts a maximal identifier run, classified as a keyword when it is a
//! reserved word; a decimal digit starts a maximal digit run whose base-10 value must
//! fit in 64 bits (a longer run is rejected as `NumberTooLarge`); otherwise
//! two characters are tried against the two-character operators first, then
//! one character against the single-character operators, and a character
//! that fits nowhere is rejected as `UnknownCharacter`.

use vstd::prelude::*;

verus! {

/// An atomic lexical unit: punctuation, an operator, a keyword, an
/// identifier, a numeric literal, or the end-of-stream marker `EOF`.
#[allow(non_camel_case_types)]
#[derive(Debug, Clone, PartialEq, Eq)]
pub enum Token {
    LBRACE,
    RBRACE,
    LPAREN,
    RPAREN,
    L_SQUARE_BRACKET,
    R_SQUARE_BRACKET,
    KEYWORD(String),
    IDENTIFIER(String),
    NUMBER(u64),
    B_AND,
    B_OR,
    EQUAL,
    PLUS,
    MINUS,
    TIMES,
    SLASH,
    PERCENT,
    AMPERSAND,
    LESS,
    GREATER,
    VERTICAL_BAR,
    XOR,
    SHL,
    SHR,
    BANG,
    TILDE,
    COMMA,
    DOT,
    QUESTION_MARK,
    QUOTE,
    DOUBLE_QUOTE,
    COLON,
    SEMICOLON,
    EOF,
}

/// The mathematical value of a `Token`: the text of a keyword or identifier
/// becomes a character sequence.
pub enum SpecToken {
    LBrace,
    RBrace,
    LParen,
    RParen,
    LSquareBracket,
    RSquareBracket,
    Keyword(Seq<char>),
    Identifier(Seq<char>),
    Number(u64),
    BAnd,
    BOr,
    Equal,
    Plus,
    Minus,
    Times,
    Slash,
    Percent,
    Ampersand,
    Less,
    Greater,
    VerticalBar,
    Xor,
    Shl,
    Shr,
    Bang,
    Tilde,
    Comma,
    Dot,
    QuestionMark,
    Quote,
    DoubleQuote,
    Colon,
    Semicolon,
    Eof,
}

impl View for Token {
    type V = SpecToken;

    open spec fn view(&self) -> SpecToken {
        match self {
            Token::LBRACE => SpecToken::LBrace,
            Token::RBRACE => SpecToken::RBrace,
            Token::LPAREN => SpecToken::LParen,
            Token::RPAREN => SpecToken::RParen,
            Token::L_SQUARE_BRACKET => SpecToken::LSquareBracket,
            Token::R_SQUARE_BRACKET => SpecToken::RSquareBracket,
            Token::KEYWORD(s) => SpecToken::Keyword(s@),
            Token::IDENTIFIER(s) => SpecToken::Identifier(s@),
            Token::NUMBER(n) => SpecToken::Number(*n),
            Token::B_AND => SpecToken::BAnd,
            Token::B_OR => SpecToken::BOr,
            Token::EQUAL => SpecToken::Equal,
            Token::PLUS => SpecToken::Plus,
            Token::MINUS => SpecToken::Minus,
            Token::TIMES => SpecToken::Times,
            Token::SLASH => SpecToken::Slash,
            Token::PERCENT => SpecToken::Percent,
            Token::AMPERSAND => SpecToken::Ampersand,
            Token::LESS => SpecToken::Less,
            Token::GREATER => SpecToken::Greater,
            Token::VERTICAL_BAR => SpecToken::VerticalBar,
            Token::XOR => SpecToken::Xor,
            Token::SHL => SpecToken::Shl,
            Token::SHR => SpecToken::Shr,
            Token::BANG => SpecToken::Bang,
            Token::TILDE => SpecToken::Tilde,
            Token::COMMA => SpecToken::Comma,
            Token::DOT => SpecToken::Dot,
            Token::QUESTION_MARK => SpecToken::QuestionMark,
            Token::QUOTE => SpecToken::Quote,
            Token::DOUBLE_QUOTE => SpecToken::DoubleQuote,
            Token::COLON => SpecToken::Colon,
            Token::SEMICOLON => SpecToken::Semicolon,
            Token::EOF => SpecToken::Eof,
        }
    }
}

impl DeepView for Token {
    type V = SpecToken;

    open spec fn deep_view(&self) -> SpecToken {
        self.view()
    }
}

/// A lexical failure: the scan stops at the first offending character and
/// no token sequence is produced.
#[derive(Debug, Clone, PartialEq, Eq)]
pub enum LexError {
    /// A character that starts no token, with its character position.
    UnknownCharacter { chr: char, position: usize },
    /// A run of decimal digits whose value does not fit in 64 bits,
    /// with the character position where the run starts.
    NumberTooLarge { position: usize },
}

/// The mathematical value of a `LexError`.
pub enum SpecLexError {
    UnknownCharacter { chr: char, position: int },
    NumberTooLarge { position: int },
}

impl View for LexError {
    type V = SpecLexError;

    open spec fn view(&self) -> SpecLexError {
        match self {
            LexError::UnknownCharacter { chr, position } => (SpecLexError::UnknownCharacter {
                chr: *chr,
                position: *position as int,
            }),
            LexError::NumberTooLarge { position } => (SpecLexError::NumberTooLarge {
                position: *position as int,
            }),
        }
    }
}

impl DeepView for LexError {
    type V = SpecLexError;

    open spec fn deep_view(&self) -> SpecLexError {
        self.view()
    }
}

/// Whether a character beyond ASCII has the Unicode `Alphabetic`
/// property; what `char::is_alphabetic` decides there.
pub uninterp spec fn unicode_alphabetic(c: char) -> bool;

/// The whitespace characters of the ASCII range: space, tab, line feed,
/// vertical tab, form feed and carriage return.
pub open spec fn is_ascii_space_char(c: char) -> bool {
    c == ' ' || c == '\t' || c == '\n' || c == '\x0b' || c == '\x0c' || c == '\r'
}

/// Whitespace, skipped between tokens: the characters with the Unicode
/// `White_Space` property. Beyond the six ASCII ones these are next line,
/// no-break space, ogham space mark, the en quad through hair space
/// range, line separator, paragraph separator, narrow no-break space,
/// medium mathematical space, and ideographic space.
pub open spec fn is_space_char(c: char) -> bool {
    is_ascii_space_char(c) || c as u32 == 0x85 || c as u32 == 0xA0 || c as u32 == 0x1680 || (0x2000
        <= c as u32 <= 0x200A) || c as u32 == 0x2028 || c as u32 == 0x2029 || c as u32 == 0x202F
        || c as u32 == 0x205F || c as u32 == 0x3000
}

/// A decimal digit.
pub open spec fn is_digit_char(c: char) -> bool {
    48 <= c as u32 <= 57
}

/// An ASCII letter.
pub open spec fn is_ascii_letter_char(c: char) -> bool {
    (65 <= c as u32 <= 90) || (97 <= c as u32 <= 122)
}

/// A letter: within ASCII exactly the letters, beyond ASCII whatever has
/// the Unicode `Alphabetic` property. No character has both `Alphabetic`
/// and `White_Space`, so the whitespace set, written out above, is
/// excluded outright.
pub open spec fn is_letter_char(c: char) -> bool {
    if (c as u32) < 128 {
        is_ascii_letter_char(c)
    } else {
        !is_space_char(c) && unicode_alphabetic(c)
    }
}

/// A character that may start an identifier: a letter or underscore.
pub open spec fn is_ident_start_char(c: char) -> bool {
    is_letter_char(c) || c == '_'
}

/// A character that may continue an identifier: a letter, digit or
/// underscore.
pub open spec fn is_ident_char(c: char) -> bool {
    is_ident_start_char(c) || is_digit_char(c)
}

/// The numeric value of a decimal digit character.
pub open spec fn digit_val(c: char) -> int {
    c as u32 - 48
}

/// The reserved words, which the scan classifies as keywords rather than
/// identifiers.
pub open spec fn is_reserved_word(w: Seq<char>) -> bool {
    w == "int"@ || w == "long"@ || w == "unsigned"@ || w == "short"@ || w == "struct"@
        || w == "return"@
}

/// The end of the maximal run of identifier characters starting at `i`.
pub open spec fn ident_end(s: Seq<char>, i: int) -> int
    decreases s.len() - i,
    when 0 <= i <= s.len()
{
    if i < s.len() && is_ident_char(s[i]) {
        ident_end(s, i + 1)
    } else {
        i
    }
}

/// The end of the maximal run of decimal digits starting at `i`.
pub open spec fn digits_end(s: Seq<char>, i: int) -> int
    decreases s.len() - i,
    when 0 <= i <= s.len()
{
    if i < s.len() && is_digit_char(s[i]) {
        digits_end(s, i + 1)
    } else {
        i
    }
}

/// The base-10 value of the digit run `s[i..j]`, most-significant digit
/// first, as an unbounded integer.
pub open spec fn digits_val(s: Seq<char>, i: int, j: int) -> int
    decreases j - i,
    when i <= j
{
    if j <= i {
        0
    } else {
        digits_val(s, i, j - 1) * 10 + digit_val(s[j - 1])
    }
}

/// Whether the two characters form a two-character operator. The pair is
/// tried before the single characters: longest match first.
pub open spec fn is_two_char_op(c1: char, c2: char) -> bool {
    (c1 == '&' && c2 == '&') || (c1 == '|' && c2 == '|')
}

/// The token of a two-character operator.
pub open spec fn two_char_tok(c1: char, c2: char) -> SpecToken {
    if c1 == '&' && c2 == '&' {
        SpecToken::BAnd
    } else {
        SpecToken::BOr
    }
}

/// Whether the character alone forms a token.
pub open spec fn is_single_char_op(c: char) -> bool {
    c == '(' || c == ')' || c == '{' || c == '}' || c == '[' || c == ']' || c == '+' || c == '-'
        || c == '*' || c == '/' || c == '%' || c == '!' || c == '^' || c == '~' || c == '&'
        || c == '|' || c == '=' || c == ';' || c == ':' || c == '?' || c == '\'' || c == '"'
}

/// The token of a single-character operator or punctuation mark.
pub open spec fn single_char_tok(c: char) -> SpecToken {
    if c == '(' {
        SpecToken::LParen
    } else if c == ')' {
        SpecToken::RParen
    } else if c == '{' {
        SpecToken::LBrace
    } else if c == '}' {
        SpecToken::RBrace
    } else if c == '[' {
        SpecToken::LSquareBracket
    } else if c == ']' {
        SpecToken::RSquareBracket
    } else if c == '+' {
        SpecToken::Plus
    } else if c == '-' {
        SpecToken::Minus
    } else if c == '*' {
        SpecToken::Times
    } else if c == '/' {
        SpecToken::Slash
    } else if c == '%' {
        SpecToken::Percent
    } else if c == '!' {
        SpecToken::Bang
    } else if c == '^' {
        SpecToken::Xor
    } else if c == '~' {
        SpecToken::Tilde
    } else if c == '&' {
        SpecToken::Ampersand
    } else if c == '|' {
        SpecToken::VerticalBar
    } else if c == '=' {
        SpecToken::Equal
    } else if c == ';' {
        SpecToken::Semicolon
    } else if c == ':' {
        SpecToken::Colon
    } else if c == '?' {
        SpecToken::QuestionMark
    } else if c == '\'' {
        SpecToken::Quote
    } else {
        SpecToken::DoubleQuote
    }
}

/// Bounds and characterization of `ident_end`: the run lies within the
/// text, every character in it continues an identifier, and the run is
/// maximal.
pub proof fn lemma_ident_end(s: Seq<char>, i: int)
    requires
        0 <= i <= s.len(),
    ensures
        i <= ident_end(s, i) <= s.len(),
        forall|k: int| i <= k < ident_end(s, i) ==> is_ident_char(s[k]),
        ident_end(s, i) < s.len() ==> !is_ident_char(s[ident_end(s, i)]),
    decreases s.len() - i,
{
    if i < s.len() && is_ident_char(s[i]) {
        lemma_ident_end(s, i + 1);
    }
}

/// Bounds and characterization of `digits_end`, as for `lemma_ident_end`.
pub proof fn lemma_digits_end(s: Seq<char>, i: int)
    requires
        0 <= i <= s.len(),
    ensures
        i <= digits_end(s, i) <= s.len(),
        forall|k: int| i <= k < digits_end(s, i) ==> is_digit_char(s[k]),
        digits_end(s, i) < s.len() ==> !is_digit_char(s[digits_end(s, i)]),
    decreases s.len() - i,
{
    if i < s.len() && is_digit_char(s[i]) {
        lemma_digits_end(s, i + 1);
    }
}

/// The token sequence of the text from position `i` on, or the first
/// lexical failure. Every successful scan ends in exactly one `Eof`.
pub open spec fn spec_tokenize_from(s: Seq<char>, i: int) -> Result<Seq<SpecToken>, SpecLexError>
    decreases s.len() - i,
    when 0 <= i <= s.len()
{
    if i >= s.len() {
        Ok(seq![SpecToken::Eof])
    } else if is_space_char(s[i]) {
        spec_tokenize_from(s, i + 1)
    } else if is_digit_char(s[i]) {
        let j = {
            proof {
                lemma_digits_end(s, i);
            }
            digits_end(s, i)
        };
        if digits_val(s, i, j) > u64::MAX {
            Err(SpecLexError::NumberTooLarge { position: i })
        } else {
            match spec_tokenize_from(s, j) {
                Ok(ts) => Ok(seq![SpecToken::Number(digits_val(s, i, j) as u64)] + ts),
                Err(e) => Err(e),
            }
        }
    } else if is_ident_start_char(s[i]) {
        let j = {
            proof {
                lemma_ident_end(s, i);
            }
            ident_end(s, i)
        };
        let w = s.subrange(i, j);
        let t = if is_reserved_word(w) {
            SpecToken::Keyword(w)
        } else {
            SpecToken::Identifier(w)
        };
        match spec_tokenize_from(s, j) {
            Ok(ts) => Ok(seq![t] + ts),
            Err(e) => Err(e),
        }
    } else if i + 1 < s.len() && is_two_char_op(s[i], s[i + 1]) {
        match spec_tokenize_from(s, i + 2) {
            Ok(ts) => Ok(seq![two_char_tok(s[i], s[i + 1])] + ts),
            Err(e) => Err(e),
        }
    } else if is_single_char_op(s[i]) {
        match spec_tokenize_from(s, i + 1) {
            Ok(ts) => Ok(seq![single_char_tok(s[i])] + ts),
            Err(e) => Err(e),
        }
    } else {
        Err(SpecLexError::UnknownCharacter { chr: s[i], position: i })
    }
}

/// The token sequence of the whole text, or the first lexical failure.
pub open spec fn spec_tokenize(s: Seq<char>) -> Result<Seq<SpecToken>, SpecLexError> {
    spec_tokenize_from(s, 0)
}

/// A well-formed token sequence, as every successful scan produces it:
/// non-empty, its last element is the end-marker, and that final element is
/// the only occurrence of the end-marker.
pub open spec fn wf_tokens(ts: Seq<SpecToken>) -> bool {
    &&& ts.len() >= 1
    &&& ts.last() == SpecToken::Eof
    &&& forall|k: int| 0 <= k < ts.len() - 1 ==> ts[k] != SpecToken::Eof
}

/// How a tokenizer result relates to its model: the tokens of a successful
/// scan have exactly the modelled values, and a failed scan reports exactly
/// the modelled error.
pub open spec fn lex_result_matches(
    r: Result<Vec<Token>, LexError>,
    m: Result<Seq<SpecToken>, SpecLexError>,
) -> bool {
    match m {
        Ok(ts) => r matches Ok(v) && v.deep_view() == ts,
        Err(e) => r matches Err(le) && le@ == e,
    }
}

/// Tokens already produced, followed by the outcome of the remaining scan.
pub open spec fn lex_combine(
    prefix: Seq<SpecToken>,
    rest: Result<Seq<SpecToken>, SpecLexError>,
) -> Result<Seq<SpecToken>, SpecLexError> {
    match rest {
        Ok(ts) => Ok(prefix + ts),
        Err(e) => Err(e),
    }
}

/// The whitespace test, written out against the enumerated `White_Space`
/// set rather than calling `char::is_whitespace`, whose whole behaviour
/// that enumeration is.
fn ch_is_space(c: char) -> (r: bool)
    ensures
        r == is_space_char(c),
{
    let u = c as u32;
    u == 0x20 || (0x09 <= u && u <= 0x0D) || u == 0x85 || u == 0xA0 || u == 0x1680 || (0x2000 <= u
        && u <= 0x200A) || u == 0x2028 || u == 0x2029 || u == 0x202F || u == 0x205F || u == 0x3000
}

/// Relies on `char::is_alphabetic`: true exactly of the characters with
/// the Unicode `Alphabetic` property, a property of the character alone;
/// within ASCII these are exactly the letters, and no character of the
/// `White_Space` set is alphabetic.
#[verifier::external_body]
fn ch_is_alphabetic(c: char) -> (r: bool)
    ensures
        r == is_letter_char(c),
        (c as u32) >= 128 && !is_space_char(c) ==> r == unicode_alphabetic(c),
{
    c.is_alphabetic()
}

fn ch_is_digit(c: char) -> (r: bool)
    ensures
        r == is_digit_char(c),
{
    let u = c as u32;
    48 <= u && u <= 57
}

fn ch_is_ident_start(c: char) -> (r: bool)
    ensures
        r == is_ident_start_char(c),
{
    ch_is_alphabetic(c) || c == '_'
}

/// Whether the character at `j` is a decimal digit.
fn digit_at(s: &str, j: usize) -> (r: bool)
    requires
        j < s@.len(),
    ensures
        r == is_digit_char(s@[j as int]),
{
    ch_is_digit(s.get_char(j))
}

/// Whether the character at `j` may continue an identifier.
fn ident_char_at(s: &str, j: usize) -> (r: bool)
    requires
        j < s@.len(),
    ensures
        r == is_ident_char(s@[j as int]),
{
    let c = s.get_char(j);
    ch_is_ident_start(c) || ch_is_digit(c)
}

/// The end of the maximal digit run starting at `start`.
fn scan_digits_end(s: &str, start: usize) -> (end: usize)
    requires
        start <= s@.len(),
    ensures
        end == digits_end(s@, start as int),
        start <= end <= s@.len(),
{
    let n = s.unicode_len();
    let mut j = start;
    while j < n && digit_at(s, j)
        invariant
            start <= j <= n,
            n == s@.len(),
            digits_end(s@, start as int) == digits_end(s@, j as int),
        decreases n - j,
    {
        j = j + 1;
    }
    proof {
        assert(digits_end(s@, j as int) == j);
    }
    j
}

/// The end of the maximal identifier run starting at `start`.
fn scan_ident_end(s: &str, start: usize) -> (end: usize)
    requires
        start <= s@.len(),
    ensures
        end == ident_end(s@, start as int),
        start <= end <= s@.len(),
{
    let n = s.unicode_len();
    let mut j = start;
    while j < n && ident_char_at(s, j)
        invariant
            start <= j <= n,
            n == s@.len(),
            ident_end(s@, start as int) == ident_end(s@, j as int),
        decreases n - j,
    {
        j = j + 1;
    }
    proof {
        assert(ident_end(s@, j as int) == j);
    }
    j
}

/// The value of a digit run is never negative.
proof fn lemma_digits_val_nonneg(s: Seq<char>, i: int, j: int)
    requires
        i <= j,
        forall|k: int| i <= k < j ==> is_digit_char(s[k]),
    ensures
        digits_val(s, i, j) >= 0,
    decreases j - i,
{
    if j > i {
        lemma_digits_val_nonneg(s, i, j - 1);
        assert(is_digit_char(s[j - 1]));
        assert(digits_val(s, i, j - 1) * 10 >= 0) by (nonlinear_arith)
            requires
                digits_val(s, i, j - 1) >= 0,
        ;
    }
}

/// Extending a digit run never shrinks its value: once a prefix of the run
/// is too large for 64 bits, the whole run is.
proof fn lemma_digits_val_mono(s: Seq<char>, i: int, j: int, k: int)
    requires
        i <= j <= k,
        forall|m: int| i <= m < k ==> is_digit_char(s[m]),
    ensures
        digits_val(s, i, k) >= digits_val(s, i, j),
    decreases k - j,
{
    if k > j {
        lemma_digits_val_mono(s, i, j, k - 1);
        lemma_digits_val_nonneg(s, i, k - 1);
        assert(is_digit_char(s[k - 1]));
        assert(digits_val(s, i, k - 1) * 10 + digit_val(s[k - 1]) >= digits_val(s, i, k - 1))
            by (nonlinear_arith)
            requires
                digits_val(s, i, k - 1) >= 0,
                digit_val(s[k - 1]) >= 0,
        ;
    }
}

/// Scan the maximal digit run at `start` and accumulate its base-10 value,
/// most-significant digit first; a run whose value does not fit in 64 bits
/// is rejected.
fn scan_number(s: &str, start: usize) -> (r: Result<(u64, usize), LexError>)
    requires
        start < s@.len(),
        is_digit_char(s@[start as int]),
    ensures
        ({
            let j = digits_end(s@, start as int);
            let v = digits_val(s@, start as int, j);
            match r {
                Ok((val, end)) => v <= u64::MAX && val == v && end == j && start < end <= s@.len(),
                Err(e) => v > u64::MAX && e@ == (SpecLexError::NumberTooLarge {
                    position: start as int,
                }),
            }
        }),
{
    let ghost sq = s@;
    let end = scan_digits_end(s, start);
    proof {
        lemma_digits_end(sq, start as int);
    }
    let mut val: u64 = 0;
    let mut k = start;
    while k < end
        invariant
            start <= k <= end <= sq.len(),
            sq == s@,
            end == digits_end(sq, start as int),
            forall|m: int| start <= m < end ==> is_digit_char(sq[m]),
            val == digits_val(sq, start as int, k as int),
        decreases end - k,
    {
        let c = s.get_char(k);
        let d: u64 = (c as u32 - 48) as u64;
        let wide: u128 = (val as u128) * 10 + (d as u128);
        proof {
            assert(wide == digits_val(sq, start as int, k + 1));
        }
        if wide > u64::MAX as u128 {
            proof {
                lemma_digits_val_mono(sq, start as int, k + 1, end as int);
            }
            return Err(LexError::NumberTooLarge { position: start });
        }
        val = wide as u64;
        k = k + 1;
    }
    Ok((val, end))
}

/// Whether the text is one of the reserved words.
fn is_reserved(w: &str) -> (r: bool)
    ensures
        r == is_reserved_word(w@),
{
    let ws = w.to_owned();
    ws == "int".to_owned() || ws == "long".to_owned() || ws == "unsigned".to_owned() || ws
        == "short".to_owned() || ws == "struct".to_owned() || ws == "return".to_owned()
}

/// The token of a single character, or `None` when the character starts no
/// token.
fn single_op_token(c: char) -> (t: Option<Token>)
    ensures
        match t {
            Some(tok) => is_single_char_op(c) && tok@ == single_char_tok(c),
            None => !is_single_char_op(c),
        },
{
    if c == '(' {
        Some(Token::LPAREN)
    } else if c == ')' {
        Some(Token::RPAREN)
    } else if c == '{' {
        Some(Token::LBRACE)
    } else if c == '}' {
        Some(Token::RBRACE)
    } else if c == '[' {
        Some(Token::L_SQUARE_BRACKET)
    } else if c == ']' {
        Some(Token::R_SQUARE_BRACKET)
    } else if c == '+' {
        Some(Token::PLUS)
    } else if c == '-' {
        Some(Token::MINUS)
    } else if c == '*' {
        Some(Token::TIMES)
    } else if c == '/' {
        Some(Token::SLASH)
    } else if c == '%' {
        Some(Token::PERCENT)
    } else if c == '!' {
        Some(Token::BANG)
    } else if c == '^' {
        Some(Token::XOR)
    } else if c == '~' {
        Some(Token::TILDE)
    } else if c == '&' {
        Some(Token::AMPERSAND)
    } else if c == '|' {
        Some(Token::VERTICAL_BAR)
    } else if c == '=' {
        Some(Token::EQUAL)
    } else if c == ';' {
        Some(Token::SEMICOLON)
    } else if c == ':' {
        Some(Token::COLON)
    } else if c == '?' {
        Some(Token::QUESTION_MARK)
    } else if c == '\'' {
        Some(Token::QUOTE)
    } else if c == '"' {
        Some(Token::DOUBLE_QUOTE)
    } else {
        None
    }
}

/// Convert source text into its token sequence, terminated by exactly one
/// end-marker, or report the first lexical failure: the result is exactly
/// what `spec_tokenize` gives for the text.
pub fn tokenize(input: &str) -> (r: Result<Vec<Token>, LexError>)
    ensures
        lex_result_matches(r, spec_tokenize(input@)),
{
    let ghost s = input@;
    let n = input.unicode_len();
    let mut toks: Vec<Token> = Vec::new();
    let mut i: usize = 0;
    while i < n
        invariant
            n == s.len(),
            s == input@,
            i <= n,
            lex_combine(toks.deep_view(), spec_tokenize_from(s, i as int)) == spec_tokenize(s),
        decreases n - i,
    {
        let ghost pre = toks.deep_view();
        let ghost i0 = i as int;
        let c = input.get_char(i);
        if ch_is_space(c) {
            i = i + 1;
        } else if ch_is_digit(c) {
            match scan_number(input, i) {
                Ok((val, end)) => {
                    toks.push(Token::NUMBER(val));
                    proof {
                        lemma_step(s, i0, pre, toks.deep_view(), SpecToken::Number(val), end as int);
                    }
                    i = end;
                },
                Err(e) => {
                    return Err(e);
                },
            }
        } else if ch_is_ident_start(c) {
            let end = scan_ident_end(input, i);
            proof {
                lemma_ident_end(s, i0);
            }
            let w = input.substring_char(i, end);
            let txt = w.to_owned();
            let t = if is_reserved(w) {
                Token::KEYWORD(txt)
            } else {
                Token::IDENTIFIER(txt)
            };
            let ghost tv = t@;
            toks.push(t);
            proof {
                lemma_step(s, i0, pre, toks.deep_view(), tv, end as int);
            }
            i = end;
        } else {
            let two: bool = if i + 1 < n {
                let c2 = input.get_char(i + 1);
                (c == '&' && c2 == '&') || (c == '|' && c2 == '|')
            } else {
                false
            };
            if two {
                let t = if c == '&' {
                    Token::B_AND
                } else {
                    Token::B_OR
                };
                let ghost tv = t@;
                toks.push(t);
                proof {
                    lemma_step(s, i0, pre, toks.deep_view(), tv, i0 + 2);
                }
                i = i + 2;
            } else {
                match single_op_token(c) {
                    Some(t) => {
                        let ghost tv = t@;
                        toks.push(t);
                        proof {
                            lemma_step(s, i0, pre, toks.deep_view(), tv, i0 + 1);
                        }
                        i = i + 1;
                    },
                    None => {
                        return Err(LexError::UnknownCharacter { chr: c, position: i });
                    },
                }
            }
        }
    }
    let ghost pfinal = toks.deep_view();
    toks.push(Token::EOF);
    proof {
        assert(spec_tokenize_from(s, n as int) == Ok::<Seq<SpecToken>, SpecLexError>(
            seq![SpecToken::Eof],
        ));
        assert(toks.deep_view() =~= pfinal + seq![SpecToken::Eof]);
    }
    Ok(toks)
}

/// After one token has been produced at position `i` and the cursor has
/// moved to `next`, the tokens so far still combine with the remaining
/// scan to the scan of the whole text.
proof fn lemma_step(
    s: Seq<char>,
    i: int,
    pre: Seq<SpecToken>,
    cur: Seq<SpecToken>,
    t: SpecToken,
    next: int,
)
    requires
        0 <= i <= s.len(),
        0 <= next <= s.len(),
        cur =~= pre.push(t),
        lex_combine(pre, spec_tokenize_from(s, i)) == spec_tokenize(s),
        spec_tokenize_from(s, i) == (match spec_tokenize_from(s, next) {
            Ok(ts) => Ok(seq![t] + ts),
            Err(e) => Err(e),
        }),
    ensures
        lex_combine(cur, spec_tokenize_from(s, next)) == spec_tokenize(s),
{
    match spec_tokenize_from(s, next) {
        Ok(ts) => {
            assert(pre + (seq![t] + ts) =~= pre.push(t) + ts);
        },
        Err(e) => {},
    }
}

/// Whether a token vector is well formed: non-empty, ending in the
/// end-marker, with no other occurrence of it. The tokenizer always
/// produces such a vector; a caller that obtained tokens elsewhere can
/// check them before parsing.
pub fn tokens_well_formed(tokens: &Vec<Token>) -> (r: bool)
    ensures
        r == wf_tokens(tokens.deep_view()),
{
    let ghost ts = tokens.deep_view();
    let n = tokens.len();
    if n == 0 {
        return false;
    }
    match &tokens[n - 1] {
        Token::EOF => {},
        _ => {
            return false;
        },
    }
    let mut k: usize = 0;
    while k < n - 1
        invariant
            n == tokens.len(),
            ts == tokens.deep_view(),
            k <= n - 1,
            ts.last() == SpecToken::Eof,
            forall|m: int| 0 <= m < k ==> ts[m] != SpecToken::Eof,
        decreases n - k,
    {
        match &tokens[k] {
            Token::EOF => {
                proof {
                    assert(ts[k as int] == SpecToken::Eof);
                    assert(!wf_tokens(ts));
                }
                return false;
            },
            _ => {},
        }
        k = k + 1;
    }
    true
}

/// Putting one token that is not the end-marker in front of a well-formed
/// sequence keeps it well formed.
proof fn lemma_wf_cons(t: SpecToken, ts: Seq<SpecToken>)
    requires
        wf_tokens(ts),
        t != SpecToken::Eof,
    ensures
        wf_tokens(seq![t] + ts),
{
    let c = seq![t] + ts;
    assert(c.last() == ts.last());
    assert forall|k: int| 0 <= k < c.len() - 1 implies c[k] != SpecToken::Eof by {
        if k > 0 {
            assert(c[k] == ts[k - 1]);
        }
    }
}

/// Every successful scan from any position is well formed.
proof fn lemma_spec_tokenize_from_wf(s: Seq<char>, i: int)
    requires
        0 <= i <= s.len(),
    ensures
        spec_tokenize_from(s, i) matches Ok(ts) ==> wf_tokens(ts),
    decreases s.len() - i,
{
    if i >= s.len() {
        assert(wf_tokens(seq![SpecToken::Eof]));
    } else if is_space_char(s[i]) {
        lemma_spec_tokenize_from_wf(s, i + 1);
    } else if is_digit_char(s[i]) {
        lemma_digits_end(s, i);
        lemma_digits_end(s, i + 1);
        let j = digits_end(s, i);
        if digits_val(s, i, j) <= u64::MAX {
            lemma_spec_tokenize_from_wf(s, j);
            match spec_tokenize_from(s, j) {
                Ok(ts) => {
                    lemma_wf_cons(SpecToken::Number(digits_val(s, i, j) as u64), ts);
                },
                Err(e) => {},
            }
        }
    } else if is_ident_start_char(s[i]) {
        lemma_ident_end(s, i);
        lemma_ident_end(s, i + 1);
        let j = ident_end(s, i);
        let w = s.subrange(i, j);
        lemma_spec_tokenize_from_wf(s, j);
        match spec_tokenize_from(s, j) {
            Ok(ts) => {
                if is_reserved_word(w) {
                    lemma_wf_cons(SpecToken::Keyword(w), ts);
                } else {
                    lemma_wf_cons(SpecToken::Identifier(w), ts);
                }
            },
            Err(e) => {},
        }
    } else if i + 1 < s.len() && is_two_char_op(s[i], s[i + 1]) {
        lemma_spec_tokenize_from_wf(s, i + 2);
        match spec_tokenize_from(s, i + 2) {
            Ok(ts) => {
                lemma_wf_cons(two_char_tok(s[i], s[i + 1]), ts);
            },
            Err(e) => {},
        }
    } else if is_single_char_op(s[i]) {
        lemma_spec_tokenize_from_wf(s, i + 1);
        match spec_tokenize_from(s, i + 1) {
            Ok(ts) => {
                lemma_wf_cons(single_char_tok(s[i]), ts);
            },
            Err(e) => {},
        }
    }
}

/// End-marker invariant: for every input on which the scan succeeds, the
/// token sequence is non-empty, its last element is the end-marker, and
/// that final element is the only occurrence of the end-marker.
pub proof fn lemma_tokenize_end_marker(s: Seq<char>)
    ensures
        spec_tokenize(s) matches Ok(ts) ==> wf_tokens(ts),
{
    lemma_spec_tokenize_from_wf(s, 0);
}

/// An identifier-shaped text is scanned as one word token and the
/// end-marker: the word is a keyword exactly when it is reserved.
proof fn lemma_tokenize_ident_shaped(s: Seq<char>)
    requires
        s.len() >= 1,
        is_ident_start_char(s[0]),
        forall|k: int| 0 <= k < s.len() ==> is_ident_char(s[k]),
    ensures
        spec_tokenize(s) == Ok::<Seq<SpecToken>, SpecLexError>(
            seq![
                if is_reserved_word(s) {
                    SpecToken::Keyword(s)
                } else {
                    SpecToken::Identifier(s)
                },
                SpecToken::Eof,
            ],
        ),
{
    lemma_ident_end(s, 0);
    let j = ident_end(s, 0);
    assert(j == s.len());
    assert(s.subrange(0, j) =~= s);
    let t = if is_reserved_word(s) {
        SpecToken::Keyword(s)
    } else {
        SpecToken::Identifier(s)
    };
    assert(spec_tokenize_from(s, j) == Ok::<Seq<SpecToken>, SpecLexError>(seq![SpecToken::Eof]));
    assert(seq![t] + seq![SpecToken::Eof] =~= seq![t, SpecToken::Eof]);
}

/// Keyword/identifier partition, reserved side: each reserved word is
/// scanned as exactly that keyword followed by the end-marker.
pub proof fn lemma_tokenize_reserved_word(s: Seq<char>)
    requires
        is_reserved_word(s),
    ensures
        spec_tokenize(s) == Ok::<Seq<SpecToken>, SpecLexError>(seq![SpecToken::Keyword(s), SpecToken::Eof]),
{
    reveal_strlit("int");
    reveal_strlit("long");
    reveal_strlit("unsigned");
    reveal_strlit("short");
    reveal_strlit("struct");
    reveal_strlit("return");
    assert forall|k: int| 0 <= k < s.len() implies is_ident_char(s[k]) by {
        assert(s[k] == s.index(k));
    }
    lemma_tokenize_ident_shaped(s);
}

/// Keyword/identifier partition, identifier side: an identifier-shaped
/// text that is not reserved — first character a letter or underscore,
/// the rest letters, digits or underscores, letters by the Unicode
/// `Alphabetic` property — is scanned as exactly that identifier
/// followed by the end-marker.
pub proof fn lemma_tokenize_identifier(s: Seq<char>)
    requires
        s.len() >= 1,
        is_ident_start_char(s[0]),
        forall|k: int| 0 <= k < s.len() ==> is_ident_char(s[k]),
        !is_reserved_word(s),
    ensures
        spec_tokenize(s) == Ok::<Seq<SpecToken>, SpecLexError>(seq![SpecToken::Identifier(s), SpecToken::Eof]),
{
    lemma_tokenize_ident_shaped(s);
}

/// A run of identifier characters followed by a boundary is exactly the
/// maximal identifier run.
proof fn lemma_ident_end_char(s: Seq<char>, i: int, j: int)
    requires
        0 <= i <= j <= s.len(),
        forall|k: int| i <= k < j ==> is_ident_char(s[k]),
        j < s.len() ==> !is_ident_char(s[j]),
    ensures
        ident_end(s, i) == j,
    decreases j - i,
{
    if i < j {
        lemma_ident_end_char(s, i + 1, j);
    }
}

/// A run of digits followed by a boundary is exactly the maximal digit
/// run.
proof fn lemma_digits_end_char(s: Seq<char>, i: int, j: int)
    requires
        0 <= i <= j <= s.len(),
        forall|k: int| i <= k < j ==> is_digit_char(s[k]),
        j < s.len() ==> !is_digit_char(s[j]),
    ensures
        digits_end(s, i) == j,
    decreases j - i,
{
    if i < j {
        lemma_digits_end_char(s, i + 1, j);
    }
}

/// The value of a digit run within the first part of a concatenation does
/// not depend on what follows.
proof fn lemma_digits_val_prefix(s: Seq<char>, q: Seq<char>, i: int, j: int)
    requires
        0 <= i <= j <= s.len(),
    ensures
        digits_val(s + q, i, j) == digits_val(s, i, j),
    decreases j - i,
{
    if i < j {
        lemma_digits_val_prefix(s, q, i, j - 1);
        assert((s + q)[j - 1] == s[j - 1]);
    }
}

/// The value of a digit run does not change when the text is shifted by a
/// prefix.
proof fn lemma_digits_val_shift(p: Seq<char>, s: Seq<char>, i: int, j: int)
    requires
        0 <= i <= j <= s.len(),
    ensures
        digits_val(p + s, p.len() + i, p.len() + j) == digits_val(s, i, j),
    decreases j - i,
{
    if i < j {
        lemma_digits_val_shift(p, s, i, j - 1);
        assert((p + s)[p.len() + j - 1] == s[j - 1]);
    }
}

/// Scanning jumps over any run of whitespace.
proof fn lemma_skip_spaces(s: Seq<char>, i: int, j: int)
    requires
        0 <= i <= j <= s.len(),
        forall|k: int| i <= k < j ==> is_space_char(s[k]),
    ensures
        spec_tokenize_from(s, i) == spec_tokenize_from(s, j),
    decreases j - i,
{
    if i < j {
        assert(is_space_char(s[i]));
        lemma_skip_spaces(s, i + 1, j);
    }
}

/// A successful scan only looks rightward: putting any text in front of
/// the scanned text, and starting after it, gives the same tokens.
proof fn lemma_tokenize_shift(p: Seq<char>, s: Seq<char>, i: int)
    requires
        0 <= i <= s.len(),
    ensures
        spec_tokenize_from(s, i) matches Ok(ts) ==> spec_tokenize_from(p + s, p.len() + i)
            == Ok::<Seq<SpecToken>, SpecLexError>(ts),
    decreases s.len() - i,
{
    let cat = p + s;
    let n = p.len() as int;
    if spec_tokenize_from(s, i) is Ok {
        if i >= s.len() {
            assert(spec_tokenize_from(cat, n + i) == Ok::<Seq<SpecToken>, SpecLexError>(
                seq![SpecToken::Eof],
            ));
        } else {
            assert(cat[n + i] == s[i]);
            if is_space_char(s[i]) {
                lemma_tokenize_shift(p, s, i + 1);
            } else if is_digit_char(s[i]) {
                lemma_digits_end(s, i);
                lemma_digits_end(s, i + 1);
                let j = digits_end(s, i);
                assert forall|k: int| n + i <= k < n + j implies is_digit_char(cat[k]) by {
                    assert(cat[k] == s[k - n]);
                }
                if n + j < cat.len() {
                    assert(cat[n + j] == s[j]);
                }
                lemma_digits_end_char(cat, n + i, n + j);
                lemma_digits_val_shift(p, s, i, j);
                if digits_val(s, i, j) <= u64::MAX {
                    lemma_tokenize_shift(p, s, j);
                }
            } else if is_ident_start_char(s[i]) {
                lemma_ident_end(s, i);
                lemma_ident_end(s, i + 1);
                let j = ident_end(s, i);
                assert forall|k: int| n + i <= k < n + j implies is_ident_char(cat[k]) by {
                    assert(cat[k] == s[k - n]);
                }
                if n + j < cat.len() {
                    assert(cat[n + j] == s[j]);
                }
                lemma_ident_end_char(cat, n + i, n + j);
                assert(cat.subrange(n + i, n + j) =~= s.subrange(i, j));
                lemma_tokenize_shift(p, s, j);
            } else if i + 1 < s.len() && is_two_char_op(s[i], s[i + 1]) {
                assert(cat[n + i + 1] == s[i + 1]);
                lemma_tokenize_shift(p, s, i + 2);
            } else if is_single_char_op(s[i]) {
                if i + 1 < s.len() {
                    assert(cat[n + i + 1] == s[i + 1]);
                }
                lemma_tokenize_shift(p, s, i + 1);
            }
        }
    }
}

/// Splicing one sequence in front of a remainder and then continuing: the
/// algebra of `drop_last` over the spliced head.
proof fn lemma_drop_last_cons(t: SpecToken, u: Seq<SpecToken>, v: Seq<SpecToken>)
    requires
        u.len() >= 1,
    ensures
        (seq![t] + u).drop_last() + v =~= seq![t] + (u.drop_last() + v),
{
}

/// Appending text that starts with whitespace after a successfully
/// scanned text: the scan produces the same tokens up to the end-marker,
/// then continues into the appended text from the seam.
proof fn lemma_tokenize_append(s: Seq<char>, q: Seq<char>, i: int)
    requires
        0 <= i <= s.len(),
        q.len() >= 1,
        is_space_char(q[0]),
    ensures
        spec_tokenize_from(s, i) matches Ok(ts) ==> spec_tokenize_from(s + q, i) == (
        match spec_tokenize_from(s + q, s.len() as int) {
            Ok(ts2) => Ok(ts.drop_last() + ts2),
            Err(e) => Err(e),
        }),
    decreases s.len() - i,
{
    let cat = s + q;
    if let Ok(ts) = spec_tokenize_from(s, i) {
        if i >= s.len() {
            assert(ts =~= seq![SpecToken::Eof]);
            match spec_tokenize_from(cat, s.len() as int) {
                Ok(ts2) => {
                    assert(seq![SpecToken::Eof].drop_last() + ts2 =~= ts2);
                },
                Err(e) => {},
            }
        } else {
            assert(cat[i] == s[i]);
            if is_space_char(s[i]) {
                lemma_tokenize_append(s, q, i + 1);
            } else if is_digit_char(s[i]) {
                lemma_digits_end(s, i);
                lemma_digits_end(s, i + 1);
                let j = digits_end(s, i);
                assert forall|k: int| i <= k < j implies is_digit_char(cat[k]) by {
                    assert(cat[k] == s[k]);
                }
                if j < cat.len() {
                    if j < s.len() {
                        assert(cat[j] == s[j]);
                    } else {
                        assert(cat[j] == q[0]);
                    }
                }
                lemma_digits_end_char(cat, i, j);
                lemma_digits_val_prefix(s, q, i, j);
                lemma_tokenize_append(s, q, j);
                lemma_spec_tokenize_from_wf(s, j);
                if let Ok(inner) = spec_tokenize_from(s, j) {
                    let t = SpecToken::Number(digits_val(s, i, j) as u64);
                    match spec_tokenize_from(cat, s.len() as int) {
                        Ok(ts2) => {
                            lemma_drop_last_cons(t, inner, ts2);
                        },
                        Err(e) => {},
                    }
                }
            } else if is_ident_start_char(s[i]) {
                lemma_ident_end(s, i);
                lemma_ident_end(s, i + 1);
                let j = ident_end(s, i);
                assert forall|k: int| i <= k < j implies is_ident_char(cat[k]) by {
                    assert(cat[k] == s[k]);
                }
                if j < cat.len() {
                    if j < s.len() {
                        assert(cat[j] == s[j]);
                    } else {
                        assert(cat[j] == q[0]);
                    }
                }
                lemma_ident_end_char(cat, i, j);
                assert(cat.subrange(i, j) =~= s.subrange(i, j));
                lemma_tokenize_append(s, q, j);
                lemma_spec_tokenize_from_wf(s, j);
                if let Ok(inner) = spec_tokenize_from(s, j) {
                    let w = s.subrange(i, j);
                    let t = if is_reserved_word(w) {
                        SpecToken::Keyword(w)
                    } else {
                        SpecToken::Identifier(w)
                    };
                    match spec_tokenize_from(cat, s.len() as int) {
                        Ok(ts2) => {
                            lemma_drop_last_cons(t, inner, ts2);
                        },
                        Err(e) => {},
                    }
                }
            } else if i + 1 < s.len() && is_two_char_op(s[i], s[i + 1]) {
                assert(cat[i + 1] == s[i + 1]);
                lemma_tokenize_append(s, q, i + 2);
                lemma_spec_tokenize_from_wf(s, i + 2);
                if let Ok(inner) = spec_tokenize_from(s, i + 2) {
                    match spec_tokenize_from(cat, s.len() as int) {
                        Ok(ts2) => {
                            lemma_drop_last_cons(two_char_tok(s[i], s[i + 1]), inner, ts2);
                        },
                        Err(e) => {},
                    }
                }
            } else if is_single_char_op(s[i]) {
                if i + 1 < s.len() {
                    assert(cat[i + 1] == s[i + 1]);
                } else {
                    assert(cat[i + 1] == q[0]);
                }
                lemma_tokenize_append(s, q, i + 1);
                lemma_spec_tokenize_from_wf(s, i + 1);
                if let Ok(inner) = spec_tokenize_from(s, i + 1) {
                    match spec_tokenize_from(cat, s.len() as int) {
                        Ok(ts2) => {
                            lemma_drop_last_cons(single_char_tok(s[i]), inner, ts2);
                        },
                        Err(e) => {},
                    }
                }
            }
        }
    }
}

/// Whitespace insensitivity, leading side: whitespace in front of the
/// text changes nothing about a successful scan.
pub proof fn lemma_tokenize_whitespace_prefix(w: Seq<char>, s: Seq<char>)
    requires
        forall|k: int| 0 <= k < w.len() ==> is_space_char(w[k]),
        spec_tokenize(s) is Ok,
    ensures
        spec_tokenize(w + s) == spec_tokenize(s),
{
    let cat = w + s;
    assert forall|k: int| 0 <= k < w.len() implies is_space_char(cat[k]) by {
        assert(cat[k] == w[k]);
    }
    lemma_skip_spaces(cat, 0, w.len() as int);
    lemma_tokenize_shift(w, s, 0);
}

/// Whitespace insensitivity: texts that scan successfully, joined by any
/// whitespace, scan to the joined token sequences — one end-marker, at
/// the end. In particular, where one token ends is decided before the
/// whitespace, so `&` and `&` with space between stay two tokens.
pub proof fn lemma_tokenize_whitespace_separator(s1: Seq<char>, w: Seq<char>, s2: Seq<char>)
    requires
        w.len() >= 1,
        forall|k: int| 0 <= k < w.len() ==> is_space_char(w[k]),
        spec_tokenize(s1) is Ok,
        spec_tokenize(s2) is Ok,
    ensures
        (match (spec_tokenize(s1), spec_tokenize(s2)) {
            (Ok(t1), Ok(t2)) => spec_tokenize(s1 + w + s2) == Ok::<
                Seq<SpecToken>,
                SpecLexError,
            >(t1.drop_last() + t2),
            _ => true,
        }),
{
    let q = w + s2;
    assert(q[0] == w[0]);
    lemma_tokenize_append(s1, q, 0);
    assert(s1 + w + s2 =~= s1 + q);
    let cat = s1 + q;
    let n1 = s1.len() as int;
    assert forall|k: int| n1 <= k < n1 + w.len() implies is_space_char(cat[k]) by {
        assert(cat[k] == q[k - n1]);
        assert(q[k - n1] == w[k - n1]);
    }
    lemma_skip_spaces(cat, n1, n1 + w.len());
    lemma_tokenize_shift(s1 + w, s2, 0);
    assert((s1 + w) + s2 =~= cat);
}

/// Numeric literals: a text of decimal digits whose value fits in 64 bits
/// is scanned as exactly that number followed by the end-marker.
pub proof fn lemma_tokenize_number(s: Seq<char>)
    requires
        s.len() >= 1,
        forall|k: int| 0 <= k < s.len() ==> is_digit_char(s[k]),
        digits_val(s, 0, s.len() as int) <= u64::MAX,
    ensures
        spec_tokenize(s) == Ok::<Seq<SpecToken>, SpecLexError>(
            seq![SpecToken::Number(digits_val(s, 0, s.len() as int) as u64), SpecToken::Eof],
        ),
{
    lemma_digits_end(s, 0);
    let j = digits_end(s, 0);
    assert(j == s.len());
    let t = SpecToken::Number(digits_val(s, 0, j) as u64);
    assert(spec_tokenize_from(s, j) == Ok::<Seq<SpecToken>, SpecLexError>(seq![SpecToken::Eof]));
    assert(seq![t] + seq![SpecToken::Eof] =~= seq![t, SpecToken::Eof]);
}

} // verus!
