use minilab::pascal::ast::AST;
use minilab::pascal::interp::Interpreter;
use minilab::pascal::lexer::Lexer;
use minilab::pascal::parser::Parser;
use minilab::pascal::token::{Token, TokenKind};

fn run_or_panic(code: &str) {
    let mut interpreter = Interpreter::new();
    interpreter.interpret(code);
}

#[test]
fn test_empty_program() {
    let code = "BEGIN END.";
    let mut interpreter = Interpreter::new();
    let vars = interpreter.interpret(code);
    assert!(vars.is_empty());
}

#[test]
fn test_math_expression() {
    let code = "
        BEGIN
            x := 2 + 3 * (2 + 3);
            y := 2 / 2 - 2 + 3 * ((1 + 1) + (1 + 1));
        END.";
    let mut interpreter = Interpreter::new();
    let vars = interpreter.interpret(code);

    assert_eq!(*vars.get("x").unwrap(), 17);
    assert_eq!(*vars.get("y").unwrap(), 11);
}

#[test]
fn test_nested_scopes() {
    let code = "
        BEGIN
            y := 2;
            BEGIN
                a := 3;
                a := a;
                b := 10 + a + 10 * y / 4;
                c := a - b
            END;
            x := 11;
        END.";
    let mut interpreter = Interpreter::new();
    let vars = interpreter.interpret(code);

    assert_eq!(*vars.get("y").unwrap(), 2);
    assert_eq!(*vars.get("a").unwrap(), 3);
    assert_eq!(*vars.get("b").unwrap(), 18);
    assert_eq!(*vars.get("c").unwrap(), -15);
    assert_eq!(*vars.get("x").unwrap(), 11);
}

#[test]
fn test_unary_operators() {
    let code = "BEGIN x := -5; y := +3; END.";
    let mut interpreter = Interpreter::new();
    let vars = interpreter.interpret(code);
    assert_eq!(*vars.get("x").unwrap(), -5);
    assert_eq!(*vars.get("y").unwrap(), 3);
}

#[test]
fn test_case_insensitivity() {
    let code = "begin X := 10; end.";
    let mut interpreter = Interpreter::new();
    let vars = interpreter.interpret(code);
    assert_eq!(*vars.get("X").unwrap(), 10);
}

#[test]
fn test_noop_semi() {
    let code = "BEGIN x := 1; ; ; END.";
    let mut interpreter = Interpreter::new();
    let vars = interpreter.interpret(code);
    assert_eq!(*vars.get("x").unwrap(), 1);
}

#[test]
#[should_panic(expected = "Lexer error: Unexpected token ':' expected ':='")]
fn test_lexer_incomplete_assign() {
    run_or_panic("BEGIN x : 10 END.");
}

#[test]
#[should_panic(expected = "Lexer error: Unexpected character: @")]
fn test_lexer_invalid_char() {
    run_or_panic("BEGIN x := @; END.");
}

#[test]
#[should_panic(expected = "Parser error: expected Dot, found Semi")]
fn test_parser_missing_dot() {
    run_or_panic("BEGIN x := 1 END;");
}

#[test]
#[should_panic(expected = "Parser error: expected End, found Integer(5)")]
fn test_parser_invalid_variable_assign() {
    run_or_panic("BEGIN 5 := 10 END.");
}

#[test]
#[should_panic(expected = "Parser error: expected End, found Integer(1)")]
fn test_parser_assign_to_expression() {
    run_or_panic("BEGIN 1 := 1 END.");
}

#[test]
#[should_panic(expected = "Parser error: expected RParen")]
fn test_parser_unclosed_paren() {
    run_or_panic("BEGIN x := (2 + 2 END.");
}

#[test]
#[should_panic(expected = "Parser error in factor: unexpected token Mul")]
fn test_parser_unexpected_factor() {
    run_or_panic("BEGIN x := 2 + * 3 END.");
}

#[test]
#[should_panic(expected = "Parser error: Unexpected identifier after statement without semicolon")]
fn test_parser_missing_semi() {
    run_or_panic("BEGIN x := 1 y := 2 END.");
}

#[test]
#[should_panic(expected = "Interpreter error: Variable 'z' not found")]
fn test_interpreter_undefined_var() {
    run_or_panic("BEGIN x := z + 1 END.");
}

#[test]
#[should_panic(expected = "Interpreter error: Invalid binary operator")]
fn test_interpreter_invalid_binop() {
    let mut interpreter = Interpreter::new();
    let ast = AST::BinOp(Box::new(AST::Num(1)), Token::Begin, Box::new(AST::Num(1)));
    interpreter.visit(&ast);
}

#[test]
#[should_panic(expected = "Interpreter error: Invalid unary operator")]
fn test_interpreter_invalid_unaryop() {
    let mut interpreter = Interpreter::new();
    let ast = AST::UnaryOp(Token::Mul, Box::new(AST::Num(1)));
    interpreter.visit(&ast);
}

#[test]
#[should_panic(expected = "Parser error: Expected identifier, found Integer(1)")]
fn test_parser_internal_variable_panic() {
    let lexer = Lexer::new("1");
    let mut parser = Parser::new(lexer);
    parser.variable();
}

fn error_of(code: &str) -> String {
    let mut interpreter = Interpreter::new();
    match interpreter.try_interpret(code) {
        Ok(_) => panic!("expected an error"),
        Err(e) => e,
    }
}

#[test]
fn error_messages_in_full() {
    assert_eq!(error_of("BEGIN x := y END."), "Interpreter error: Variable 'y' not found");
    assert_eq!(error_of("BEGIN x := 1 END"), "Parser error: expected Dot, found Eof");
    assert_eq!(error_of("x := 1"), "Parser error: expected Begin, found Id(\"x\")");
    assert_eq!(error_of("BEGIN x := 1 / 0 END."), "attempt to divide by zero");
    assert_eq!(error_of("BEGIN x := 2147483647 + 1 END."), "attempt to add with overflow");
    assert_eq!(error_of("BEGIN x := -2147483647 - 2 END."), "attempt to subtract with overflow");
    assert_eq!(error_of("BEGIN x := 65536 * 65536 END."), "attempt to multiply with overflow");
    assert_eq!(
        error_of("BEGIN x := 2147483648 END."),
        "called `Result::unwrap()` on an `Err` value: ParseIntError { kind: PosOverflow }"
    );
    assert_eq!(error_of("BEGIN x := 1 END. @"), "Lexer error: Unexpected character: @");
}

#[test]
fn division_rounds_toward_zero() {
    let mut interpreter = Interpreter::new();
    let vars = interpreter
        .interpret("BEGIN a := 7 / 2; b := -7 / 2; c := 7 / -2; d := -7 / -2 END.");
    assert_eq!(*vars.get("a").unwrap(), 3);
    assert_eq!(*vars.get("b").unwrap(), -3);
    assert_eq!(*vars.get("c").unwrap(), -3);
    assert_eq!(*vars.get("d").unwrap(), 3);
}

#[test]
fn assignment_reads_back_and_overwrites() {
    let mut interpreter = Interpreter::new();
    let vars = interpreter.interpret("BEGIN v := 4; v := v * v; w := v END.");
    assert_eq!(*vars.get("v").unwrap(), 16);
    assert_eq!(*vars.get("w").unwrap(), 16);
    assert!(vars.get("u").is_none());
    assert_eq!(vars.names().len(), 2);
}

#[test]
fn variables_persist_across_programs() {
    let mut interpreter = Interpreter::new();
    interpreter.interpret("BEGIN k := 5 END.");
    let vars = interpreter.interpret("BEGIN m := k + 1 END.");
    assert_eq!(*vars.get("m").unwrap(), 6);
    assert_eq!(*vars.get("k").unwrap(), 5);
}

#[test]
fn lexer_reads_tokens_in_order() {
    let mut lexer = Lexer::new("  begin x1_ := (12)*3; END.");
    let kinds: Vec<String> = (0..11)
        .map(|_| lexer.get_next_token().debug_text())
        .collect();
    assert_eq!(
        kinds,
        vec!["Begin", "Id(\"x1_\")", "Assign", "LParen", "Integer(12)", "RParen", "Mul", "Integer(3)", "Semi", "End", "Dot"]
    );
    assert_eq!(lexer.get_next_token().debug_text(), "Eof");
}

#[test]
fn trailing_text_after_dot_is_ignored() {
    let mut interpreter = Interpreter::new();
    let vars = interpreter.interpret("BEGIN x := 1 END. anything");
    assert_eq!(*vars.get("x").unwrap(), 1);
}

#[test]
fn mixed_case_keywords_and_empty_statements() {
    let mut interpreter = Interpreter::new();
    let vars = interpreter.interpret("BeGiN ; a := 4; ; bEgIn b := a * 2 EnD ; END.");
    assert_eq!(*vars.get("a").unwrap(), 4);
    assert_eq!(*vars.get("b").unwrap(), 8);
    assert_eq!(vars.names().len(), 2);
}

#[test]
fn lexer_pieces_on_their_own() {
    let mut lexer = Lexer::new("x");
    assert_eq!(
        lexer.try_integer(),
        Err("called `Result::unwrap()` on an `Err` value: ParseIntError { kind: Empty }".to_string())
    );
    let mut lexer = Lexer::new("9x_ y");
    assert_eq!(lexer.id().debug_text(), "Id(\"9x_\")");
    assert_eq!(lexer.get_next_token().debug_text(), "Id(\"y\")");
    let mut lexer = Lexer::new("  042;");
    lexer.skip_whitespace();
    assert_eq!(lexer.integer(), 42);
    assert_eq!(lexer.get_next_token().debug_text(), "Semi");
}

#[test]
fn checked_parser_steps_report_errors() {
    let mut parser = Parser::try_new(Lexer::new("* 3")).unwrap();
    assert_eq!(parser.try_factor().unwrap_err(), "Parser error in factor: unexpected token Mul");
    assert_eq!(parser.try_eat(TokenKind::Dot).unwrap_err(), "Parser error: expected Dot, found Mul");
    parser.eat(TokenKind::Mul);
    assert!(matches!(parser.factor(), AST::Num(3)));
}
