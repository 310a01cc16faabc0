use monkey::lexer::Lexer;
use monkey::parser::Parser;

#[test]
fn a_parser_is_made_from_a_lexer() {
    let lexer = Lexer::new("let x = 1;");
    let _parser = Parser::from(lexer);
}

#[test]
fn a_lexer_converts_into_a_parser() {
    let mut lexer = Lexer::new("x y");
    assert!(lexer.next().is_some());
    let _parser: Parser = lexer.into();
}
