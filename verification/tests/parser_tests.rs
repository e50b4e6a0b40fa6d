use cfront::ast::CDecl;
use cfront::ast::CExpr;
use cfront::ast::CStm;
use cfront::lexer::tokenize;
use cfront::lexer::Token;
use cfront::parser::parse_program;
use cfront::parser::ParseError;

fn parse_text(input: &str) -> Result<Vec<CDecl>, ParseError> {
    parse_program(tokenize(input).unwrap())
}

#[test]
fn parser_happy_path() {
    let program = parse_text("int main(){return 0;}").unwrap();
    assert_eq!(program.len(), 1);
    let CDecl::Fun { return_tp, name, parameters, body } = &program[0];
    assert_eq!(return_tp, "int");
    assert_eq!(name, "main");
    assert!(parameters.is_empty());
    assert_eq!(body, &vec![CStm::Return(CExpr::Number(0))]);
}

#[test]
fn parser_rejects_misspelled_keyword() {
    let res = parse_text("int main(){retrun 0;}");
    assert_eq!(
        res,
        Err(ParseError::Expected {
            expected_token: Token::KEYWORD(String::from("return")),
            token: Token::IDENTIFIER(String::from("retrun")),
        })
    );
}

#[test]
fn block_needs_semicolon_between_statements() {
    let res = parse_text("int f(){return 0 return 1}");
    assert_eq!(
        res,
        Err(ParseError::Expected {
            expected_token: Token::RBRACE,
            token: Token::KEYWORD(String::from("return")),
        })
    );
}

#[test]
fn block_accepts_two_separated_statements() {
    for input in ["int f(){return 0; return 1}", "int f(){return 0; return 1;}"] {
        let program = parse_text(input).unwrap();
        assert_eq!(program.len(), 1);
        let CDecl::Fun { body, .. } = &program[0];
        assert_eq!(
            body,
            &vec![CStm::Return(CExpr::Number(0)), CStm::Return(CExpr::Number(1))]
        );
    }
}

#[test]
fn block_may_be_empty() {
    let program = parse_text("int f(){}").unwrap();
    assert_eq!(program.len(), 1);
    let CDecl::Fun { body, .. } = &program[0];
    assert!(body.is_empty());
}

#[test]
fn trailing_semicolon_is_optional() {
    let program = parse_text("int f(){return 5}").unwrap();
    let CDecl::Fun { body, .. } = &program[0];
    assert_eq!(body, &vec![CStm::Return(CExpr::Number(5))]);
}

#[test]
fn type_expected() {
    assert_eq!(parse_text("main(){}"), Err(ParseError::TypeExpected));
    assert_eq!(parse_text("long f(){}"), Err(ParseError::TypeExpected));
}

#[test]
fn name_expected() {
    assert_eq!(parse_text("int 5(){}"), Err(ParseError::NameExpected));
}

#[test]
fn number_expected() {
    assert_eq!(parse_text("int f(){return x;}"), Err(ParseError::NumberExpected));
}

#[test]
fn punctuation_expected() {
    assert_eq!(
        parse_text("int f{}"),
        Err(ParseError::Expected { expected_token: Token::LPAREN, token: Token::LBRACE })
    );
    assert_eq!(
        parse_text("int f(x){}"),
        Err(ParseError::Expected {
            expected_token: Token::RPAREN,
            token: Token::IDENTIFIER(String::from("x")),
        })
    );
    assert_eq!(
        parse_text("int f()return 0;"),
        Err(ParseError::Expected {
            expected_token: Token::LBRACE,
            token: Token::KEYWORD(String::from("return")),
        })
    );
}

#[test]
fn unicode_whitespace_between_tokens() {
    let program = parse_text("int\u{a0}main(){return 0;}").unwrap();
    assert_eq!(program.len(), 1);
    let CDecl::Fun { name, .. } = &program[0];
    assert_eq!(name, "main");
}

#[test]
fn one_token_between_declarations_is_discarded() {
    // after each declaration, one token is consumed unchecked before the next
    let program = parse_text("int a(){return 1;} ; int b(){return 2;}").unwrap();
    assert_eq!(program.len(), 2);
    let CDecl::Fun { name, .. } = &program[1];
    assert_eq!(name, "b");

    let program = parse_text("int a(){} x int b(){}").unwrap();
    assert_eq!(program.len(), 2);

    // without a separator, the `int` of the next declaration is discarded
    assert_eq!(parse_text("int a(){} int b(){}"), Err(ParseError::TypeExpected));
}
