use sysy_compiler::c_ast::{Block, CompUnit, Exp, FuncDef, FuncType, PrimaryExp, Stmt, UnaryExp, UnaryOp};
use sysy_compiler::compile::compile_source;
use sysy_compiler::lexer::{lex, ErrorKind, SyntaxError, Token, TokenKind};
use sysy_compiler::parser::{parse, parse_tokens};
use sysy_compiler::riscv::call;

fn num(n: i32) -> UnaryExp {
    UnaryExp::PrimaryUnary { primary_exp: Box::new(PrimaryExp::NumberPrimary { num: n }) }
}

fn prefixed(op: UnaryOp, e: UnaryExp) -> UnaryExp {
    UnaryExp::OpUnaryUnary { unary_op: op, unary_exp: Box::new(e) }
}

fn grouped(e: UnaryExp) -> UnaryExp {
    UnaryExp::PrimaryUnary {
        primary_exp: Box::new(PrimaryExp::ExpPrimary { exp: Box::new(Exp { unary_exp: Box::new(e) }) }),
    }
}

fn function(ident: &str, e: UnaryExp) -> CompUnit {
    CompUnit {
        func_def: FuncDef {
            func_type: FuncType::Int,
            ident: ident.to_string(),
            block: Block { stmt: Stmt { exp: Exp { unary_exp: Box::new(e) } } },
        },
    }
}

fn kinds_of(source: &str) -> Vec<TokenKind> {
    lex(source.as_bytes()).unwrap().into_iter().map(|t| t.kind).collect()
}

fn error(at: usize, kind: ErrorKind) -> SyntaxError {
    SyntaxError { at, kind }
}

#[test]
fn tokens_carry_kind_and_place() {
    let tokens = lex(b"int main() {\n  return 0;\n}\n").unwrap();
    assert_eq!(
        tokens,
        vec![
            Token { kind: TokenKind::Int, at: 0 },
            Token { kind: TokenKind::Ident("main".to_string()), at: 4 },
            Token { kind: TokenKind::LParen, at: 8 },
            Token { kind: TokenKind::RParen, at: 9 },
            Token { kind: TokenKind::LBrace, at: 11 },
            Token { kind: TokenKind::Return, at: 15 },
            Token { kind: TokenKind::Number(0), at: 22 },
            Token { kind: TokenKind::Semicolon, at: 23 },
            Token { kind: TokenKind::RBrace, at: 25 },
        ]
    );
}

#[test]
fn words_are_cut_at_their_longest() {
    assert_eq!(
        kinds_of("int integer in return returns _r9 Int"),
        vec![
            TokenKind::Int,
            TokenKind::Ident("integer".to_string()),
            TokenKind::Ident("in".to_string()),
            TokenKind::Return,
            TokenKind::Ident("returns".to_string()),
            TokenKind::Ident("_r9".to_string()),
            TokenKind::Ident("Int".to_string()),
        ]
    );
}

#[test]
fn literals_in_three_bases() {
    assert_eq!(
        kinds_of("0 7 10 010 017 0x10 0XfF 0xabcdef 2147483647 0x7fffffff 017777777777"),
        vec![
            TokenKind::Number(0),
            TokenKind::Number(7),
            TokenKind::Number(10),
            TokenKind::Number(8),
            TokenKind::Number(15),
            TokenKind::Number(16),
            TokenKind::Number(255),
            TokenKind::Number(11259375),
            TokenKind::Number(2147483647),
            TokenKind::Number(2147483647),
            TokenKind::Number(2147483647),
        ]
    );
}

#[test]
fn literal_ends_where_its_digits_end() {
    assert_eq!(
        kinds_of("09 0x 0xg 12ab"),
        vec![
            TokenKind::Number(0),
            TokenKind::Number(9),
            TokenKind::Number(0),
            TokenKind::Ident("x".to_string()),
            TokenKind::Number(0),
            TokenKind::Ident("xg".to_string()),
            TokenKind::Number(12),
            TokenKind::Ident("ab".to_string()),
        ]
    );
}

#[test]
fn literal_out_of_range_is_an_error() {
    assert_eq!(lex(b"  2147483648"), Err(error(2, ErrorKind::LiteralOutOfRange)));
    assert_eq!(lex(b"0x80000000"), Err(error(0, ErrorKind::LiteralOutOfRange)));
    assert_eq!(lex(b"020000000000"), Err(error(0, ErrorKind::LiteralOutOfRange)));
    assert_eq!(lex(b"99999999999999999999999999"), Err(error(0, ErrorKind::LiteralOutOfRange)));
}

#[test]
fn blanks_and_comments_are_passed_over() {
    assert_eq!(
        kinds_of("// one\n+ /* two\n * lines */ - //\n\t! /**/ /***/ ( // last"),
        vec![TokenKind::Plus, TokenKind::Minus, TokenKind::Bang, TokenKind::LParen]
    );
    assert_eq!(kinds_of(""), vec![]);
    assert_eq!(kinds_of(" \t\r\n"), vec![]);
    assert_eq!(kinds_of("/* only */"), vec![]);
}

#[test]
fn comment_without_end_is_an_error() {
    assert_eq!(lex(b"int /* never closed"), Err(error(4, ErrorKind::UnterminatedComment)));
    assert_eq!(lex(b"/*/"), Err(error(0, ErrorKind::UnterminatedComment)));
}

#[test]
fn byte_that_starts_no_token_is_an_error() {
    assert_eq!(lex(b"return #"), Err(error(7, ErrorKind::UnexpectedByte)));
    assert_eq!(lex(b"1 / 2"), Err(error(2, ErrorKind::UnexpectedByte)));
    assert_eq!(lex(b"@main"), Err(error(0, ErrorKind::UnexpectedByte)));
    assert_eq!(lex("int caf\u{e9}".as_bytes()), Err(error(7, ErrorKind::UnexpectedByte)));
}

#[test]
fn function_returning_a_literal_is_read() {
    assert_eq!(parse(b"int main() { return 0; }"), Ok(function("main", num(0))));
    assert_eq!(parse(b"int f(){return 0x2A;}"), Ok(function("f", num(42))));
}

#[test]
fn operators_and_parentheses_are_read_as_written() {
    assert_eq!(
        parse(b"int main() { return -5; }"),
        Ok(function("main", prefixed(UnaryOp::MINUS, num(5))))
    );
    assert_eq!(
        parse(b"int main() { return +(- -!6); }"),
        Ok(function(
            "main",
            prefixed(
                UnaryOp::PLUS,
                grouped(prefixed(UnaryOp::MINUS, prefixed(UnaryOp::MINUS, prefixed(UnaryOp::BANG, num(6)))))
            )
        ))
    );
    assert_eq!(parse(b"int main() { return ((1)); }"), Ok(function("main", grouped(grouped(num(1))))));
}

#[test]
fn missing_return_statement_is_a_syntax_error() {
    let result = parse(b"int main() { }");
    assert_eq!(result, Err(error(13, ErrorKind::UnexpectedToken)));
    assert_eq!(result.unwrap_err().message(), "syntax error at byte 13: unexpected token");
    assert_eq!(compile_source(b"int main() { }"), Err(error(13, ErrorKind::UnexpectedToken)));
}

#[test]
fn each_misplaced_token_is_found_where_it_stands() {
    assert_eq!(parse(b"void main() { return 0; }"), Err(error(0, ErrorKind::UnexpectedToken)));
    assert_eq!(parse(b"int 1() { return 0; }"), Err(error(4, ErrorKind::UnexpectedToken)));
    assert_eq!(parse(b"int int() { return 0; }"), Err(error(4, ErrorKind::UnexpectedToken)));
    assert_eq!(parse(b"int main { return 0; }"), Err(error(9, ErrorKind::UnexpectedToken)));
    assert_eq!(parse(b"int main(int) { return 0; }"), Err(error(9, ErrorKind::UnexpectedToken)));
    assert_eq!(parse(b"int main() return 0;"), Err(error(11, ErrorKind::UnexpectedToken)));
    assert_eq!(parse(b"int main() { return; }"), Err(error(19, ErrorKind::UnexpectedToken)));
    assert_eq!(parse(b"int main() { return 1 2; }"), Err(error(22, ErrorKind::UnexpectedToken)));
    assert_eq!(parse(b"int main() { return (1; }"), Err(error(22, ErrorKind::UnexpectedToken)));
    assert_eq!(parse(b"int main() { return 1); }"), Err(error(21, ErrorKind::UnexpectedToken)));
    assert_eq!(parse(b"int main() { return 1 }"), Err(error(22, ErrorKind::UnexpectedToken)));
    assert_eq!(parse(b"int main() { return 1; } }"), Err(error(25, ErrorKind::UnexpectedToken)));
    assert_eq!(parse(b"int main() { return 1; return 2; }"), Err(error(23, ErrorKind::UnexpectedToken)));
}

#[test]
fn text_that_ends_too_early_is_an_error_at_its_end() {
    assert_eq!(parse(b""), Err(error(0, ErrorKind::UnexpectedEnd)));
    assert_eq!(parse(b"int"), Err(error(3, ErrorKind::UnexpectedEnd)));
    assert_eq!(parse(b"int main() { return -"), Err(error(21, ErrorKind::UnexpectedEnd)));
    assert_eq!(parse(b"int main() { return (1"), Err(error(22, ErrorKind::UnexpectedEnd)));
    assert_eq!(parse(b"int main() { return 1;  "), Err(error(24, ErrorKind::UnexpectedEnd)));
    assert_eq!(
        parse(b"int main() { return 1;").unwrap_err().message(),
        "syntax error at byte 22: unexpected end of input"
    );
}

#[test]
fn lexical_errors_come_before_misplaced_tokens() {
    assert_eq!(parse(b"main int $"), Err(error(9, ErrorKind::UnexpectedByte)));
    assert_eq!(
        parse(b"int main() { return 4294967296; }"),
        Err(error(20, ErrorKind::LiteralOutOfRange))
    );
    assert_eq!(
        error(20, ErrorKind::LiteralOutOfRange).message(),
        "syntax error at byte 20: integer literal out of range"
    );
    assert_eq!(error(0, ErrorKind::UnexpectedByte).message(), "syntax error at byte 0: unexpected character");
    assert_eq!(
        error(1048576, ErrorKind::UnterminatedComment).message(),
        "syntax error at byte 1048576: comment without end"
    );
}

#[test]
fn tokens_are_read_without_a_text() {
    let tokens = vec![
        Token { kind: TokenKind::Int, at: 0 },
        Token { kind: TokenKind::Ident("k".to_string()), at: 1 },
        Token { kind: TokenKind::LParen, at: 2 },
        Token { kind: TokenKind::RParen, at: 3 },
        Token { kind: TokenKind::LBrace, at: 4 },
        Token { kind: TokenKind::Return, at: 5 },
        Token { kind: TokenKind::Bang, at: 6 },
        Token { kind: TokenKind::Number(3), at: 7 },
        Token { kind: TokenKind::Semicolon, at: 8 },
        Token { kind: TokenKind::RBrace, at: 9 },
    ];
    assert_eq!(parse_tokens(&tokens, 10), Ok(function("k", prefixed(UnaryOp::BANG, num(3)))));
    assert_eq!(parse_tokens(&tokens[..9].iter().map(|t| Token {
        kind: match &t.kind {
            TokenKind::Ident(name) => TokenKind::Ident(name.clone()),
            TokenKind::Number(n) => TokenKind::Number(*n),
            TokenKind::Int => TokenKind::Int,
            TokenKind::Return => TokenKind::Return,
            TokenKind::LParen => TokenKind::LParen,
            TokenKind::RParen => TokenKind::RParen,
            TokenKind::LBrace => TokenKind::LBrace,
            TokenKind::RBrace => TokenKind::RBrace,
            TokenKind::Semicolon => TokenKind::Semicolon,
            TokenKind::Plus => TokenKind::Plus,
            TokenKind::Minus => TokenKind::Minus,
            TokenKind::Bang => TokenKind::Bang,
        },
        at: t.at,
    }).collect::<Vec<Token>>(), 10), Err(error(10, ErrorKind::UnexpectedEnd)));
}

#[test]
fn source_returning_zero_compiles_to_a_load_and_a_return() {
    assert_eq!(
        compile_source(b"int main() {\n  // the answer\n  return 0;\n}\n"),
        Ok("\t.text\n\t.global main\nmain:\n\tli a0, 0\n\tret\n".to_string())
    );
}

#[test]
fn source_returning_minus_five_compiles_and_runs() {
    let text = compile_source(b"int main() { return -5; }").unwrap();
    assert_eq!(text, "\t.text\n\t.global main\nmain:\n\tli a0, 5\n\tsub a0, x0, a0\n\tret\n");
    let unit = parse(b"int main() { return -5; }").unwrap();
    assert_eq!(call(&sysy_compiler::compile::compile(unit), "main"), Some(-5));
}

#[test]
fn source_returning_not_zero_compiles_and_runs() {
    let text = compile_source(b"int main() { return !0; }").unwrap();
    assert_eq!(text, "\t.text\n\t.global main\nmain:\n\tli a0, 0\n\tseqz a0, a0\n\tret\n");
    let unit = parse(b"int main() { return !0; }").unwrap();
    assert_eq!(call(&sysy_compiler::compile::compile(unit), "main"), Some(1));
}

#[test]
fn function_of_another_name_gets_its_own_label() {
    assert_eq!(
        compile_source(b"int _start1() { return 0x7fffffff; }"),
        Ok("\t.text\n\t.global main\n_start1:\n\tli a0, 2147483647\n\tret\n".to_string())
    );
}
