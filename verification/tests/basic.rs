use xiyi_compiler::lexer::Lexer;
use xiyi_compiler::semantic::TypeChecker;
use xiyi_compiler::symbol_pool::SymbolPool;
use xiyi_compiler::syntactic::Parser;

#[test]
fn test_lexer_basic() {
    let input = "fn main() { let x: i32 = 10; }";
    let mut lexer = Lexer::new(input);
    let mut pool = SymbolPool::new();
    let tokens = lexer.tokenize(&mut pool).unwrap();
    assert_eq!(tokens.len(), 13);
}

#[test]
fn test_parse_basic() {
    let input = "fn main() -> i32 { let x: i32 = 10; x }";
    let mut parser = Parser::new(input);
    let program = parser.parse_program();
    assert!(program.is_ok());
}

#[test]
fn test_type_check_ok() {
    let input = "fn main() -> i32 { let x: i32 = 10; x }";
    let mut parser = Parser::new(input);
    let program = parser.parse_program().unwrap();
    let mut checker = TypeChecker::new();
    assert!(checker.check_program(&program).is_ok());
}

#[test]
fn test_type_check_type_mismatch() {
    let input = "fn main() -> i32 { let x: bool = 10; x }";
    let mut parser = Parser::new(input);
    let program = parser.parse_program().unwrap();
    let mut checker = TypeChecker::new();
    assert!(checker.check_program(&program).is_err());
}
