use quark::ast::{Expr, Statement, Type};
use quark::c_generator::{generate_c_code, translate_expr, translate_statement, translate_type};
use quark::errors::Error;
use quark::lexer::{tokenize, Token};
use quark::parser::{parse, parse_block, parse_expr, parse_statement, parse_type};

fn s(x: &str) -> String {
    x.to_string()
}

fn num(n: u64) -> Expr {
    Expr::Number(n)
}

fn ident(x: &str) -> Expr {
    Expr::Identifier(s(x))
}

fn bin(l: Expr, op: &str, r: Expr) -> Expr {
    Expr::BinaryOp(Box::new(l), s(op), Box::new(r))
}

fn main_program_source() -> &'static str {
    "fnc main() int ->\n  let x = 5\n  let y = x + 2\n  ret y\nend\n"
}

fn main_program_ast() -> Vec<Statement> {
    vec![Statement::Function(
        s("main"),
        vec![],
        Type::Int,
        vec![
            Statement::Let(s("x"), None, num(5)),
            Statement::Let(s("y"), None, bin(ident("x"), "+", num(2))),
            Statement::Return(Some(ident("y"))),
        ],
    )]
}

fn parse_source(src: &str) -> Result<Vec<Statement>, Error> {
    let mut tokens = tokenize(src)?;
    parse(&mut tokens)
}

fn lexical_message(r: Result<Vec<Token>, Error>) -> String {
    match r {
        Err(Error::Lexical(m)) => m,
        other => panic!("expected a lexical error, got {:?}", other),
    }
}

#[test]
fn tokenize_let_statement() {
    let tokens = tokenize("let x = 5").unwrap();
    assert_eq!(
        tokens,
        vec![Token::Let, Token::Identifier(s("x")), Token::Operator(s("=")), Token::Number(5), Token::Eof]
    );
}

#[test]
fn tokenize_empty_input_is_only_eof() {
    assert_eq!(tokenize("").unwrap(), vec![Token::Eof]);
    assert_eq!(tokenize(" \t\r\n").unwrap(), vec![Token::Eof]);
}

#[test]
fn tokenize_is_deterministic_with_one_eof() {
    let src = "fnc f(a int) int -> ret a * 2 end";
    let a = tokenize(src).unwrap();
    let b = tokenize(src).unwrap();
    assert_eq!(a, b);
    assert_eq!(a.iter().filter(|t| **t == Token::Eof).count(), 1);
    assert_eq!(a.last(), Some(&Token::Eof));
}

#[test]
fn tokenize_keywords_punctuation_and_types() {
    let tokens = tokenize("fnc ret if else while for match end int float string bool ( ) [ ] , : -> - + * / =").unwrap();
    assert_eq!(
        tokens,
        vec![
            Token::Fnc,
            Token::Return,
            Token::If,
            Token::Else,
            Token::While,
            Token::For,
            Token::Match,
            Token::End,
            Token::TypeInt,
            Token::TypeFloat,
            Token::TypeString,
            Token::TypeBool,
            Token::OpenParen,
            Token::CloseParen,
            Token::OpenBracket,
            Token::CloseBracket,
            Token::Comma,
            Token::Colon,
            Token::Arrow,
            Token::Operator(s("-")),
            Token::Operator(s("+")),
            Token::Operator(s("*")),
            Token::Operator(s("/")),
            Token::Operator(s("=")),
            Token::Eof,
        ]
    );
}

#[test]
fn tokenize_identifiers_numbers_and_strings() {
    let tokens = tokenize("_a1b 42x \"hi there\" \"open").unwrap();
    assert_eq!(
        tokens,
        vec![
            Token::Identifier(s("_a1b")),
            Token::Number(42),
            Token::Identifier(s("x")),
            Token::StringLiteral(s("hi there")),
            Token::StringLiteral(s("open")),
            Token::Eof,
        ]
    );
}

#[test]
fn tokenize_largest_number() {
    assert_eq!(tokenize("18446744073709551615").unwrap(), vec![Token::Number(u64::MAX), Token::Eof]);
    let m = lexical_message(tokenize("x 18446744073709551616"));
    assert_eq!(m, "Number literal out of range at position 2");
}

#[test]
fn tokenize_rejects_at_sign() {
    let m = lexical_message(tokenize("let x = @"));
    assert_eq!(m, "Unexpected character '@' at position 8");
}

#[test]
fn tokenize_reports_byte_offsets() {
    let m = lexical_message(tokenize("\"é\" @"));
    assert_eq!(m, "Unexpected character '@' at position 5");
}

#[test]
fn parse_main_function() {
    let ast = parse_source(main_program_source()).unwrap();
    assert_eq!(ast, main_program_ast());
}

#[test]
fn parse_leaves_eof_in_place() {
    let mut tokens = tokenize("x").unwrap();
    let ast = parse(&mut tokens).unwrap();
    assert_eq!(ast, vec![Statement::Expr(ident("x"))]);
    assert_eq!(tokens, vec![Token::Eof]);
}

#[test]
fn parse_let_without_assign_fails() {
    match parse_source("let x 5") {
        Err(Error::Syntax(m)) => assert_eq!(m, "Expected '=' in let statement"),
        other => panic!("expected a syntax error, got {:?}", other),
    }
}

#[test]
fn parse_errors_are_syntax_errors() {
    let cases = [
        ("let = 5", "Expected identifier after 'let'"),
        ("let x: foo = 5", "Unknown type: foo"),
        ("let x: -> = 5", "Expected type"),
        ("let x: [int = 5", "Expected ']' after array type"),
        ("a[1", "Expected ']' after array index"),
        (")", "Unexpected token in expression"),
        ("for 1", "Expected identifier after 'for'"),
        ("for i of x -> end", "Expected 'in' after iterator in for loop"),
        ("for i in x end", "Expected '->' before for loop body"),
        ("while x -> ret", "Unexpected token in expression"),
        ("while x -> let y = 1", "Unexpected EOF in block"),
        ("while x end", "Expected '->' after while condition"),
        ("if x end", "Expected '->' after if condition"),
        ("if x -> else else", "Unexpected token in expression"),
        ("if x -> else ret", "Unexpected token in expression"),
        ("fnc f(a int b int) int -> end", "Expected ',' or ')' after parameter"),
        ("fnc f(, a int) int -> end", "Expected parameter name"),
        ("fnc f(a int,) int -> end", "Expected parameter name"),
        ("fnc f(a int,, b int) int -> end", "Expected parameter name"),
        ("fnc 1", "Expected function name after 'fnc'"),
        ("fnc f x", "Expected '(' after function name"),
        ("fnc f(1) int -> end", "Expected parameter name"),
        ("fnc f() int end", "Expected '->' before function body"),
    ];
    for (src, msg) in cases.iter() {
        match parse_source(src) {
            Err(Error::Syntax(m)) => assert_eq!(&m, msg, "for {:?}", src),
            other => panic!("expected a syntax error for {:?}, got {:?}", src, other),
        }
    }
}

#[test]
fn parse_on_exhausted_tokens_reports_end_of_input() {
    let mut tokens = vec![Token::Let, Token::Identifier(s("x")), Token::Operator(s("="))];
    match parse(&mut tokens) {
        Err(Error::Syntax(m)) => assert_eq!(m, "Unexpected end of input"),
        other => panic!("expected a syntax error, got {:?}", other),
    }
    let mut none: Vec<Token> = vec![];
    assert_eq!(parse(&mut none).unwrap(), vec![]);
}

#[test]
fn parse_binary_chain_nests_to_the_right() {
    let ast = parse_source("1 + 2 * 3 - 4").unwrap();
    assert_eq!(
        ast,
        vec![Statement::Expr(bin(num(1), "+", bin(num(2), "*", bin(num(3), "-", num(4)))))]
    );
}

#[test]
fn parse_calls_arrays_and_access() {
    let ast = parse_source("f(1, \"s\", g()) [1, 2,] a[i]").unwrap();
    assert_eq!(
        ast,
        vec![
            Statement::Expr(Expr::Call(
                s("f"),
                vec![num(1), Expr::String(s("s")), Expr::Call(s("g"), vec![])]
            )),
            Statement::Expr(Expr::ArrayLiteral(vec![num(1), num(2)])),
            Statement::Expr(Expr::ArrayAccess(Box::new(ident("a")), Box::new(ident("i")))),
        ]
    );
}

#[test]
fn parse_control_flow_statements() {
    let src = "fnc f(a: int, b [string]) void ->\n if a -> ret 0 else ret end\n while a -> a = a end\n for i in 3 -> print(i) end\nend";
    let ast = parse_source(src).unwrap();
    assert_eq!(
        ast,
        vec![Statement::Function(
            s("f"),
            vec![(s("a"), Type::Int), (s("b"), Type::Array(Box::new(Type::String)))],
            Type::Void,
            vec![
                Statement::If(
                    ident("a"),
                    vec![Statement::Return(Some(num(0)))],
                    Some(vec![Statement::Return(None)])
                ),
                Statement::While(ident("a"), vec![Statement::Expr(bin(ident("a"), "=", ident("a")))]),
                Statement::For(s("i"), num(3), vec![Statement::Expr(Expr::Call(s("print"), vec![ident("i")]))]),
            ],
        )]
    );
}

#[test]
fn parse_type_forms() {
    let mut t = vec![Token::OpenBracket, Token::Identifier(s("void")), Token::CloseBracket, Token::Eof];
    assert_eq!(parse_type(&mut t).unwrap(), Type::Array(Box::new(Type::Void)));
    assert_eq!(t, vec![Token::Eof]);
    let mut t = vec![Token::TypeFloat];
    assert_eq!(parse_type(&mut t).unwrap(), Type::Float);
}

#[test]
fn parse_single_statement_and_expression() {
    let mut t = tokenize("ret end").unwrap();
    assert_eq!(parse_statement(&mut t).unwrap(), Statement::Return(None));
    assert_eq!(t, vec![Token::End, Token::Eof]);
    let mut t = tokenize("a + b c").unwrap();
    assert_eq!(parse_expr(&mut t).unwrap(), bin(ident("a"), "+", ident("b")));
    assert_eq!(t, vec![Token::Identifier(s("c")), Token::Eof]);
}

#[test]
fn generate_main_function() {
    let c = generate_c_code(&main_program_ast()).unwrap();
    assert_eq!(c, "int main() {\nint x = 5;\nint y = x + 2;\nreturn y;\n}\n");
}

#[test]
fn generate_from_source_end_to_end() {
    let ast = parse_source(main_program_source()).unwrap();
    let c = generate_c_code(&ast).unwrap();
    assert_eq!(c, "int main() {\nint x = 5;\nint y = x + 2;\nreturn y;\n}\n");
}

#[test]
fn generate_print_adds_stdio() {
    let ast = parse_source("fnc main() int ->\n let y = 3\n print(y)\n ret 0\nend").unwrap();
    let c = generate_c_code(&ast).unwrap();
    assert!(c.starts_with("#include <stdio.h>\n\n"));
    assert_eq!(
        c,
        "#include <stdio.h>\n\nint main() {\nint y = 3;\nprintf(\"%d\", y);\nreturn 0;\n}\n"
    );
}

#[test]
fn generate_print_with_several_arguments() {
    let e = Expr::Call(s("print"), vec![num(1), ident("z")]);
    assert_eq!(translate_expr(&e), (s("printf(\"%d %d\", 1, z)"), true));
    let e = Expr::Call(s("print"), vec![]);
    assert_eq!(translate_expr(&e), (s("printf(\"\")"), true));
}

#[test]
fn generate_is_idempotent() {
    let ast = parse_source("fnc f(a int, b int) int -> ret f(a, b) end print(f(1, 2))").unwrap();
    let a = generate_c_code(&ast).unwrap();
    let b = generate_c_code(&ast).unwrap();
    assert_eq!(a, b);
    assert_eq!(a, "#include <stdio.h>\n\nint f(int a, int b) {\nreturn f(a, b);\n}\nprintf(\"%d\", f(1, 2));\n");
}

#[test]
fn generate_every_expression_form() {
    assert_eq!(translate_expr(&num(0)), (s("0"), false));
    assert_eq!(translate_expr(&num(1234567890)), (s("1234567890"), false));
    assert_eq!(translate_expr(&Expr::String(s("hi"))), (s("\"hi\""), false));
    assert_eq!(translate_expr(&Expr::Boolean(true)), (s("1"), false));
    assert_eq!(translate_expr(&Expr::Boolean(false)), (s("0"), false));
    assert_eq!(translate_expr(&bin(num(1), "+", bin(num(2), "*", num(3)))), (s("1 + (2 * 3)"), false));
    assert_eq!(translate_expr(&Expr::UnaryOp(s("-"), Box::new(ident("x")))), (s("-(x)"), false));
    assert_eq!(translate_expr(&Expr::ArrayLiteral(vec![num(1), num(2), num(3)])), (s("{1, 2, 3}"), false));
    assert_eq!(
        translate_expr(&Expr::ArrayAccess(Box::new(ident("a")), Box::new(num(2)))),
        (s("a[2]"), false)
    );
    let t = Expr::Ternary(Box::new(ident("c")), Box::new(num(1)), Box::new(num(2)));
    assert_eq!(translate_expr(&t), (s("(c) ? (1) : (2)"), false));
    assert_eq!(translate_expr(&bin(t, "+", num(3))), (s("((c) ? (1) : (2)) + 3"), false));
    let nested = Expr::Call(s("g"), vec![Expr::Call(s("print"), vec![num(1)])]);
    assert_eq!(translate_expr(&nested), (s("g(printf(\"%d\", 1))"), true));
}

#[test]
fn generate_every_statement_form() {
    let st = Statement::If(ident("c"), vec![Statement::Return(None)], Some(vec![Statement::Expr(num(1))]));
    assert_eq!(translate_statement(&st).unwrap(), (s("if (c) {\nreturn;\n} else {\n1;\n}\n"), false));
    let st = Statement::If(ident("c"), vec![], None);
    assert_eq!(translate_statement(&st).unwrap(), (s("if (c) {\n}\n"), false));
    let st = Statement::While(ident("c"), vec![Statement::Expr(Expr::Call(s("print"), vec![ident("c")]))]);
    assert_eq!(translate_statement(&st).unwrap(), (s("while (c) {\nprintf(\"%d\", c);\n}\n"), true));
    let st = Statement::For(s("i"), num(10), vec![Statement::Expr(ident("i"))]);
    assert_eq!(translate_statement(&st).unwrap(), (s("for (int i = 0; i < 10; i++) {\ni;\n}\n"), false));
    let st = Statement::Block(vec![Statement::Let(s("s"), Some(Type::String), Expr::String(s("a")))]);
    assert_eq!(translate_statement(&st).unwrap(), (s("{\nchar* s = \"a\";\n}\n"), false));
    let st = Statement::Let(s("b"), Some(Type::Bool), Expr::Boolean(true));
    assert_eq!(translate_statement(&st).unwrap(), (s("int b = 1;\n"), false));
}

#[test]
fn generate_unknown_type_fails() {
    let ast = vec![Statement::Let(s("x"), Some(Type::Unknown), num(1))];
    match generate_c_code(&ast) {
        Err(Error::CodeGen(m)) => assert_eq!(m, "Unknown type"),
        other => panic!("expected a code generation error, got {:?}", other),
    }
    let ast = vec![Statement::Function(
        s("f"),
        vec![(s("a"), Type::Array(Box::new(Type::Unknown)))],
        Type::Int,
        vec![],
    )];
    assert!(matches!(generate_c_code(&ast), Err(Error::CodeGen(_))));
    let ast = vec![Statement::While(
        ident("c"),
        vec![Statement::Function(s("g"), vec![], Type::Unknown, vec![])],
    )];
    assert!(matches!(generate_c_code(&ast), Err(Error::CodeGen(_))));
}

#[test]
fn translate_type_mapping() {
    assert_eq!(translate_type(&Type::Int).unwrap(), "int");
    assert_eq!(translate_type(&Type::Float).unwrap(), "float");
    assert_eq!(translate_type(&Type::String).unwrap(), "char*");
    assert_eq!(translate_type(&Type::Bool).unwrap(), "int");
    assert_eq!(translate_type(&Type::Void).unwrap(), "void");
    assert_eq!(
        translate_type(&Type::Array(Box::new(Type::Array(Box::new(Type::Float))))).unwrap(),
        "float**"
    );
    assert!(matches!(translate_type(&Type::Unknown), Err(Error::CodeGen(_))));
}

#[test]
fn error_descriptions() {
    assert_eq!(Error::Lexical(s("a")).to_string(), "Lexical error: a");
    assert_eq!(Error::Syntax(s("b")).to_string(), "Syntax error: b");
    assert_eq!(Error::Type(s("c")).to_string(), "Type error: c");
    assert_eq!(Error::CodeGen(s("d")).to_string(), "Code generation error: d");
}

#[test]
fn parse_block_consumes_end() {
    let mut tokens = tokenize("ret 1 end").unwrap();
    assert_eq!(parse_block(&mut tokens).unwrap(), vec![Statement::Return(Some(num(1)))]);
    assert_eq!(tokens, vec![Token::Eof]);
    let mut tokens = tokenize("ret 1").unwrap();
    match parse_block(&mut tokens) {
        Err(Error::Syntax(m)) => assert_eq!(m, "Unexpected EOF in block"),
        other => panic!("expected a syntax error, got {:?}", other),
    }
    let mut tokens = tokenize("end x").unwrap();
    assert_eq!(parse_block(&mut tokens).unwrap(), vec![]);
    assert_eq!(tokens, vec![Token::Identifier(s("x")), Token::Eof]);
}

#[test]
fn parse_nested_blocks_inside_if_branches() {
    let ast = parse_source("if a -> while b -> x end else y end z").unwrap();
    assert_eq!(
        ast,
        vec![
            Statement::If(
                ident("a"),
                vec![Statement::While(ident("b"), vec![Statement::Expr(ident("x"))])],
                Some(vec![Statement::Expr(ident("y"))])
            ),
            Statement::Expr(ident("z")),
        ]
    );
}

#[test]
fn parse_params_with_single_commas() {
    let ast = parse_source("fnc f(a int, b: bool) void -> end").unwrap();
    assert_eq!(
        ast,
        vec![Statement::Function(s("f"), vec![(s("a"), Type::Int), (s("b"), Type::Bool)], Type::Void, vec![])]
    );
}

#[test]
fn tokenize_words_continue_with_unicode_alphanumerics() {
    assert_eq!(tokenize("aé_1 b").unwrap(), vec![Token::Identifier(s("aé_1")), Token::Identifier(s("b")), Token::Eof]);
}

#[test]
fn tokenize_rejects_at_sign_after_closed_string() {
    let m = lexical_message(tokenize("x1 \"a@b\" 12@ 3"));
    assert_eq!(m, "Unexpected character '@' at position 11");
    assert_eq!(
        tokenize("\"a@b\"").unwrap(),
        vec![Token::StringLiteral(s("a@b")), Token::Eof]
    );
}
