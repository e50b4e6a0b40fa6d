use cfront::lexer::tokenize;
use cfront::lexer::tokens_well_formed;
use cfront::lexer::LexError;
use cfront::lexer::Token;
use cfront::lexer::Token::AMPERSAND;
use cfront::lexer::Token::BANG;
use cfront::lexer::Token::B_AND;
use cfront::lexer::Token::B_OR;
use cfront::lexer::Token::COLON;
use cfront::lexer::Token::DOUBLE_QUOTE;
use cfront::lexer::Token::EOF;
use cfront::lexer::Token::EQUAL;
use cfront::lexer::Token::IDENTIFIER;
use cfront::lexer::Token::KEYWORD;
use cfront::lexer::Token::LBRACE;
use cfront::lexer::Token::LPAREN;
use cfront::lexer::Token::L_SQUARE_BRACKET;
use cfront::lexer::Token::MINUS;
use cfront::lexer::Token::NUMBER;
use cfront::lexer::Token::PERCENT;
use cfront::lexer::Token::PLUS;
use cfront::lexer::Token::QUESTION_MARK;
use cfront::lexer::Token::QUOTE;
use cfront::lexer::Token::RBRACE;
use cfront::lexer::Token::RPAREN;
use cfront::lexer::Token::R_SQUARE_BRACKET;
use cfront::lexer::Token::SEMICOLON;
use cfront::lexer::Token::SLASH;
use cfront::lexer::Token::TILDE;
use cfront::lexer::Token::TIMES;
use cfront::lexer::Token::VERTICAL_BAR;
use cfront::lexer::Token::XOR;

#[test]
fn parens_braces() {
    let v1 = vec![LBRACE, RBRACE, LPAREN, L_SQUARE_BRACKET, R_SQUARE_BRACKET, RPAREN, EOF];
    let res = tokenize("{} (\n [] )\t");
    assert_eq!(Ok(v1), res);
}

#[test]
fn identifiers() {
    let ids = vec!["x", "abc", "hello123", "_foo", "__gcc_test", "int66"];
    for identifier in ids {
        let res = tokenize(identifier);
        assert_eq!(res, Ok(vec![IDENTIFIER(String::from(identifier)), EOF]));
    }
}

#[test]
fn keywords() {
    let keywords = vec!["unsigned", "short", "struct", "int", "long"];
    for keyword in keywords {
        let res = tokenize(keyword);
        assert_eq!(res, Ok(vec![KEYWORD(String::from(keyword)), EOF]));
    }
}

#[test]
fn numbers() {
    let v1 = vec![NUMBER(123), NUMBER(0), NUMBER(33), EOF];
    let res = tokenize("123 0 33");
    assert_eq!(Ok(v1), res);
}

#[test]
fn logical_ops() {
    let v1 = vec![B_AND, B_OR, BANG, EOF];
    let res = tokenize("&& || !");
    assert_eq!(Ok(v1), res);
}

#[test]
fn arith_ops() {
    let v1 = vec![PLUS, MINUS, TIMES, SLASH, PERCENT, EOF];
    let res = tokenize("+ - * / %");
    assert_eq!(Ok(v1), res);
}

#[test]
fn bitwise_ops() {
    let v1 = vec![AMPERSAND, VERTICAL_BAR, XOR, TILDE, EOF];
    let res = tokenize("& | ^ ~");
    assert_eq!(Ok(v1), res);
}

#[test]
fn special_ops() {
    let v1 = vec![EQUAL, SEMICOLON, COLON, QUESTION_MARK, QUOTE, DOUBLE_QUOTE, EOF];
    let res = tokenize("= ; : ? ' \" ");
    assert_eq!(Ok(v1), res);
}

#[test]
fn whitespace_insensitive() {
    assert_eq!(tokenize("{}()"), tokenize(" { } ( ) "));
    assert_eq!(tokenize("1 2"), tokenize("  1\t\n 2\r "));
}

#[test]
fn end_marker_always_last_and_unique() {
    let inputs = vec!["", "   ", "int main(){return 0;}", "a b c", "&&&"];
    for input in inputs {
        let toks = tokenize(input).unwrap();
        assert!(!toks.is_empty());
        assert_eq!(toks.last(), Some(&EOF));
        assert_eq!(toks.iter().filter(|t| **t == EOF).count(), 1);
    }
    assert_eq!(tokenize(""), Ok(vec![EOF]));
}

#[test]
fn return_is_reserved() {
    assert_eq!(tokenize("return"), Ok(vec![KEYWORD(String::from("return")), EOF]));
}

#[test]
fn single_numeric_literals() {
    assert_eq!(tokenize("0"), Ok(vec![NUMBER(0), EOF]));
    assert_eq!(tokenize("123"), Ok(vec![NUMBER(123), EOF]));
}

#[test]
fn operator_lookahead() {
    assert_eq!(tokenize("&&"), Ok(vec![B_AND, EOF]));
    assert_eq!(tokenize("& &"), Ok(vec![AMPERSAND, AMPERSAND, EOF]));
    assert_eq!(tokenize("||"), Ok(vec![B_OR, EOF]));
    assert_eq!(tokenize("| |"), Ok(vec![VERTICAL_BAR, VERTICAL_BAR, EOF]));
    assert_eq!(tokenize("|&"), Ok(vec![VERTICAL_BAR, AMPERSAND, EOF]));
}

#[test]
fn unknown_character_is_reported() {
    assert_eq!(
        tokenize("@"),
        Err(LexError::UnknownCharacter { chr: '@', position: 0 })
    );
    assert_eq!(
        tokenize("ab #"),
        Err(LexError::UnknownCharacter { chr: '#', position: 3 })
    );
    assert_eq!(
        tokenize("<"),
        Err(LexError::UnknownCharacter { chr: '<', position: 0 })
    );
}

#[test]
fn number_overflow_is_rejected() {
    assert_eq!(
        tokenize("18446744073709551615"),
        Ok(vec![NUMBER(u64::MAX), EOF])
    );
    assert_eq!(
        tokenize("18446744073709551616"),
        Err(LexError::NumberTooLarge { position: 0 })
    );
    assert_eq!(
        tokenize("12 99999999999999999999"),
        Err(LexError::NumberTooLarge { position: 3 })
    );
}

#[test]
fn unicode_whitespace_is_skipped() {
    // U+00A0 NO-BREAK SPACE and U+2003 EM SPACE have the White_Space property
    assert_eq!(tokenize("\u{a0}{}\u{2003}()"), tokenize("{}()"));
    assert_eq!(tokenize("\u{a0}"), Ok(vec![EOF]));
    assert_eq!(
        tokenize("1\u{a0}2"),
        Ok(vec![NUMBER(1), NUMBER(2), EOF])
    );
    // next line, ideographic space, narrow no-break space
    assert_eq!(
        tokenize("1\u{85}2\u{3000}3\u{202f}4"),
        Ok(vec![NUMBER(1), NUMBER(2), NUMBER(3), NUMBER(4), EOF])
    );
}

#[test]
fn unicode_letters_form_identifiers() {
    assert_eq!(
        tokenize("caf\u{e9}"),
        Ok(vec![IDENTIFIER(String::from("caf\u{e9}")), EOF])
    );
    assert_eq!(
        tokenize("\u{e9}"),
        Ok(vec![IDENTIFIER(String::from("\u{e9}")), EOF])
    );
    assert_eq!(
        tokenize("\u{3b1}1"),
        Ok(vec![IDENTIFIER(String::from("\u{3b1}1")), EOF])
    );
}

#[test]
fn unicode_unknown_character_is_reported() {
    // an emoji is neither whitespace nor alphabetic
    assert_eq!(
        tokenize("\u{1f600}"),
        Err(LexError::UnknownCharacter { chr: '\u{1f600}', position: 0 })
    );
}

#[test]
fn well_formed_check() {
    let toks = tokenize("int main(){return 0;}").unwrap();
    assert!(tokens_well_formed(&toks));
    assert!(tokens_well_formed(&vec![EOF]));
    assert!(!tokens_well_formed(&Vec::<Token>::new()));
    assert!(!tokens_well_formed(&vec![EOF, EOF]));
    assert!(!tokens_well_formed(&vec![NUMBER(1), NUMBER(2)]));
}
