use osmium::lexer::{Argument, FileLexerError, Lexeme, LexerError, Parameter};
use osmium::tokenizer::{FileToken, Span, Token};

fn build(src: &[u8]) -> Result<Vec<Lexeme>, FileLexerError> {
    let tokens: Vec<FileToken> = Token::parse(src).expect("tokenization should succeed");
    Lexeme::parse_from(&tokens)
}

fn text<'s>(src: &'s [u8], sp: &Span) -> &'s [u8] {
    &src[sp.start..sp.end]
}

#[test]
fn end_to_end_scenario() {
    let src = b"import \"core\";\nfn main() {\n    log(\"hello\");\n}\n";
    let nodes = build(src).expect("the program is well-formed");
    assert_eq!(nodes.len(), 2);
    match &nodes[0] {
        Lexeme::Import { library_path } => {
            assert_eq!(text(src, library_path), b"core");
        }
        other => panic!("expected an import, got {:?}", other),
    }
    match &nodes[1] {
        Lexeme::FunctionDefinition {
            name,
            parameters,
            return_type,
            body,
        } => {
            assert_eq!(text(src, name), b"main");
            assert!(parameters.is_empty());
            assert!(return_type.is_none());
            assert_eq!(body.len(), 1);
            let call = &body[0];
            assert_eq!(text(src, &call.name), b"log");
            assert_eq!(call.arguments.len(), 1);
            match &call.arguments[0] {
                Argument::StringLiteral(sp) => assert_eq!(text(src, sp), b"hello"),
                other => panic!("expected a string literal argument, got {:?}", other),
            }
        }
        other => panic!("expected a function definition, got {:?}", other),
    }
}

#[test]
fn malformed_signature_missing_double_colon() {
    let err = build(b"fn f(x string) {}").unwrap_err();
    assert_eq!(err.error, LexerError::UnexpectedToken);
    assert_eq!((err.line, err.column), (1, 8));
}

#[test]
fn function_with_parameters_and_return_type() {
    let src = b"fn greet(name :: string, count :: int) -> string {\n    print(name);\n    print(count);\n}";
    let nodes = build(src).expect("the program is well-formed");
    assert_eq!(nodes.len(), 1);
    match &nodes[0] {
        Lexeme::FunctionDefinition {
            name,
            parameters,
            return_type,
            body,
        } => {
            assert_eq!(text(src, name), b"greet");
            let ps: Vec<(&[u8], &[u8])> = parameters
                .iter()
                .map(|p: &Parameter| (text(src, &p.name), text(src, &p.ty_name)))
                .collect();
            assert_eq!(
                ps,
                vec![
                    (b"name" as &[u8], b"string" as &[u8]),
                    (b"count" as &[u8], b"int" as &[u8]),
                ]
            );
            let rt = return_type.as_ref().expect("return type is declared");
            assert_eq!(text(src, rt), b"string");
            assert_eq!(body.len(), 2);
            assert_eq!(text(src, &body[0].name), b"print");
            assert_eq!(text(src, &body[1].name), b"print");
        }
        other => panic!("expected a function definition, got {:?}", other),
    }
}

#[test]
fn nested_call_arguments() {
    let src = b"fn m() { f(g(h(x)), \"s\", y); }";
    let nodes = build(src).expect("the program is well-formed");
    assert_eq!(nodes.len(), 1);
    let body = match &nodes[0] {
        Lexeme::FunctionDefinition { body, .. } => body,
        other => panic!("expected a function definition, got {:?}", other),
    };
    assert_eq!(body.len(), 1);
    let f = &body[0];
    assert_eq!(text(src, &f.name), b"f");
    assert_eq!(f.arguments.len(), 3);
    let g = match &f.arguments[0] {
        Argument::Call(c) => c,
        other => panic!("expected a nested call, got {:?}", other),
    };
    assert_eq!(text(src, &g.name), b"g");
    assert_eq!(g.arguments.len(), 1);
    let h = match &g.arguments[0] {
        Argument::Call(c) => c,
        other => panic!("expected a nested call, got {:?}", other),
    };
    assert_eq!(text(src, &h.name), b"h");
    assert_eq!(h.arguments.len(), 1);
    match &h.arguments[0] {
        Argument::Identifier(sp) => assert_eq!(text(src, sp), b"x"),
        other => panic!("expected a bare reference, got {:?}", other),
    }
    match &f.arguments[1] {
        Argument::StringLiteral(sp) => assert_eq!(text(src, sp), b"s"),
        other => panic!("expected a string literal, got {:?}", other),
    }
    match &f.arguments[2] {
        Argument::Identifier(sp) => assert_eq!(text(src, sp), b"y"),
        other => panic!("expected a bare reference, got {:?}", other),
    }
}

#[test]
fn empty_input_builds_empty_program() {
    let nodes = build(b"").expect("empty input is a valid program");
    assert!(nodes.is_empty());
}

#[test]
fn empty_token_list_builds_empty_program() {
    let tokens: Vec<FileToken> = Vec::new();
    let nodes = Lexeme::parse_from(&tokens).expect("no tokens is a valid program");
    assert!(nodes.is_empty());
}

#[test]
fn input_ending_mid_construct_fails() {
    // `fn foo(` ends right after the opening parenthesis; the parameter
    // list runs into the end of the input.
    let err = build(b"fn foo(").unwrap_err();
    assert_eq!(err.error, LexerError::NoRemainingTokens);
    assert_eq!((err.line, err.column), (1, 8));
}

#[test]
fn unexpected_top_level_token_fails() {
    let err = build(b";").unwrap_err();
    assert_eq!(err.error, LexerError::UnexpectedToken);
    assert_eq!((err.line, err.column), (1, 1));
}

#[test]
fn import_missing_semicolon_fails() {
    let err = build(b"import \"a\" fn x() {}").unwrap_err();
    assert_eq!(err.error, LexerError::UnexpectedToken);
    assert_eq!((err.line, err.column), (1, 12));
}

#[test]
fn trailing_comma_in_parameters_fails() {
    let err = build(b"fn f(a :: b,) {}").unwrap_err();
    assert_eq!(err.error, LexerError::UnexpectedToken);
    assert_eq!((err.line, err.column), (1, 13));
}

#[test]
fn trailing_comma_in_arguments_fails() {
    let err = build(b"fn f() { g(a,); }").unwrap_err();
    assert_eq!(err.error, LexerError::UnexpectedToken);
    assert_eq!((err.line, err.column), (1, 14));
}

#[test]
fn statement_missing_semicolon_fails() {
    let err = build(b"fn f() { g() }").unwrap_err();
    assert_eq!(err.error, LexerError::UnexpectedToken);
    assert_eq!((err.line, err.column), (1, 14));
}

#[test]
fn arrow_without_return_type_fails() {
    let err = build(b"fn f() -> { }").unwrap_err();
    assert_eq!(err.error, LexerError::UnexpectedToken);
    assert_eq!((err.line, err.column), (1, 11));
}

#[test]
fn two_imports_then_function() {
    let src = b"import \"a\";\nimport \"b\";\nfn go() {}\n";
    let nodes = build(src).expect("the program is well-formed");
    assert_eq!(nodes.len(), 3);
    match &nodes[0] {
        Lexeme::Import { library_path } => assert_eq!(text(src, library_path), b"a"),
        other => panic!("expected an import, got {:?}", other),
    }
    match &nodes[1] {
        Lexeme::Import { library_path } => assert_eq!(text(src, library_path), b"b"),
        other => panic!("expected an import, got {:?}", other),
    }
    match &nodes[2] {
        Lexeme::FunctionDefinition { name, body, .. } => {
            assert_eq!(text(src, name), b"go");
            assert!(body.is_empty());
        }
        other => panic!("expected a function definition, got {:?}", other),
    }
}
