use osmium::tokenizer::{FileToken, Span, Token, TokenizationError};

fn tokens_of(src: &[u8]) -> Vec<FileToken> {
    Token::parse(src).expect("tokenization should succeed")
}

#[test]
fn empty_input_yields_single_eof() {
    let ts = tokens_of(b"");
    assert_eq!(ts.len(), 1);
    assert_eq!(ts[0].token, Token::EndOfFile);
    assert_eq!((ts[0].line, ts[0].column), (1, 1));
}

#[test]
fn whitespace_only_input_yields_single_eof() {
    let ts = tokens_of(b"  \n ");
    assert_eq!(ts.len(), 1);
    assert_eq!(ts[0].token, Token::EndOfFile);
    assert_eq!((ts[0].line, ts[0].column), (2, 2));
}

#[test]
fn trailing_whitespace_still_single_eof() {
    let ts = tokens_of(b"fn \n");
    assert_eq!(ts.len(), 2);
    assert_eq!(ts[0].token, Token::Fn);
    assert_eq!(ts[1].token, Token::EndOfFile);
    let eof_count = ts
        .iter()
        .filter(|t| matches!(t.token, Token::EndOfFile))
        .count();
    assert_eq!(eof_count, 1);
}

#[test]
fn keyword_boundary_importable_is_one_identifier() {
    let src = b"importable();";
    let ts = tokens_of(src);
    assert_eq!(ts.len(), 5);
    assert_eq!(ts[0].token, Token::Identifier(Span { start: 0, end: 10 }));
    assert_eq!(&src[0..10], b"importable");
    assert_eq!(ts[1].token, Token::LeftParen);
    assert_eq!(ts[2].token, Token::RightParen);
    assert_eq!(ts[3].token, Token::SemiColon);
    assert_eq!(ts[4].token, Token::EndOfFile);
}

#[test]
fn keyword_followed_by_boundary_is_a_keyword() {
    let ts = tokens_of(b"import \"x\";");
    assert_eq!(ts.len(), 4);
    assert_eq!(ts[0].token, Token::Import);
    assert_eq!(ts[1].token, Token::StringLiteral(Span { start: 8, end: 9 }));
    assert_eq!(ts[2].token, Token::SemiColon);
    assert_eq!(ts[3].token, Token::EndOfFile);
}

#[test]
fn escaped_quote_stays_inside_one_literal() {
    // Source text: "a\"b"  (six bytes, quotes included).
    let src = b"\"a\\\"b\"";
    let ts = tokens_of(src);
    assert_eq!(ts.len(), 2);
    assert_eq!(ts[0].token, Token::StringLiteral(Span { start: 1, end: 5 }));
    // The span slices to the raw content with the escape kept verbatim.
    assert_eq!(&src[1..5], b"a\\\"b");
    assert_eq!(ts[1].token, Token::EndOfFile);
}

#[test]
fn empty_string_literal_is_legal() {
    let src = b"\"\"";
    let ts = tokens_of(src);
    assert_eq!(ts.len(), 2);
    assert_eq!(ts[0].token, Token::StringLiteral(Span { start: 1, end: 1 }));
    assert_eq!(ts[1].token, Token::EndOfFile);
}

#[test]
fn unclosed_literal_fails_at_opening_quote() {
    let err = Token::parse(b"\"abc").unwrap_err();
    assert_eq!(err.error, TokenizationError::UnclosedDelimiter);
    assert_eq!((err.line, err.column), (1, 1));
}

#[test]
fn literal_broken_by_newline_fails_at_opening_quote() {
    let err = Token::parse(b"fn \"ab\ncd\"").unwrap_err();
    assert_eq!(err.error, TokenizationError::UnclosedDelimiter);
    assert_eq!((err.line, err.column), (1, 4));
}

#[test]
fn punctuation_and_arrows() {
    let src = b"-> :: [ ] { } ,";
    let ts = tokens_of(src);
    let kinds: Vec<Token> = ts.iter().map(|t| t.token).collect();
    assert_eq!(
        kinds,
        vec![
            Token::ThinArrow,
            Token::DoubleColon,
            Token::LeftBracket,
            Token::RightBracket,
            Token::LeftCurlyBrace,
            Token::RightCurlyBrace,
            Token::Comma,
            Token::EndOfFile,
        ]
    );
}

#[test]
fn positions_across_lines() {
    let src = b"import \"core\";\nfn main() {\n}";
    let ts = tokens_of(src);
    assert_eq!(ts[0].token, Token::Import);
    assert_eq!((ts[0].line, ts[0].column), (1, 1));
    assert_eq!(ts[1].token, Token::StringLiteral(Span { start: 8, end: 12 }));
    assert_eq!((ts[1].line, ts[1].column), (1, 8));
    assert_eq!(ts[2].token, Token::SemiColon);
    assert_eq!((ts[2].line, ts[2].column), (1, 14));
    assert_eq!(ts[3].token, Token::Fn);
    assert_eq!((ts[3].line, ts[3].column), (2, 1));
    assert_eq!(ts[4].token, Token::Identifier(Span { start: 18, end: 22 }));
    assert_eq!(&src[18..22], b"main");
    assert_eq!((ts[4].line, ts[4].column), (2, 4));
    assert_eq!(ts[5].token, Token::LeftParen);
    assert_eq!(ts[6].token, Token::RightParen);
    assert_eq!(ts[7].token, Token::LeftCurlyBrace);
    assert_eq!((ts[7].line, ts[7].column), (2, 11));
    assert_eq!(ts[8].token, Token::RightCurlyBrace);
    assert_eq!((ts[8].line, ts[8].column), (3, 1));
    assert_eq!(ts[9].token, Token::EndOfFile);
    assert_eq!((ts[9].line, ts[9].column), (3, 2));
    assert_eq!(ts.len(), 10);
}

#[test]
fn total_consumption_of_sizes_and_gaps() {
    // Every byte of the input is consumed exactly once: token sizes plus
    // skipped whitespace add up to the input length.
    let src = b"fn greet(name :: string) -> string {\n    print(name);\n}";
    let ts = tokens_of(src);
    let consumed: usize = ts.iter().map(|t| t.token.size()).sum();
    let ws = src
        .iter()
        .enumerate()
        .filter(|(k, b)| {
            (**b == b' ' || **b == b'\n')
                && !ts.iter().any(|t| match t.token {
                    Token::StringLiteral(sp) => sp.start <= *k && *k < sp.end,
                    _ => false,
                })
        })
        .count();
    assert_eq!(consumed + ws, src.len());
}

#[test]
fn identifier_with_unusual_bytes_runs_to_boundary() {
    let src = b"a-b c:d";
    let ts = tokens_of(src);
    assert_eq!(ts[0].token, Token::Identifier(Span { start: 0, end: 3 }));
    assert_eq!(&src[0..3], b"a-b");
    assert_eq!(ts[1].token, Token::Identifier(Span { start: 4, end: 7 }));
    assert_eq!(&src[4..7], b"c:d");
    assert_eq!(ts[2].token, Token::EndOfFile);
}

#[test]
fn conformance_grammar_sample() {
    let src = b"import \"std::io\";\n\nfn greet(name :: string) -> string {\n    print(name);\n}\n";
    let ts = tokens_of(src);
    let kinds: Vec<Token> = ts.iter().map(|t| t.token).collect();
    assert_eq!(kinds[0], Token::Import);
    assert!(matches!(kinds[1], Token::StringLiteral(_)));
    assert_eq!(kinds[2], Token::SemiColon);
    assert_eq!(kinds[3], Token::Fn);
    assert!(matches!(kinds[4], Token::Identifier(_)));
    assert_eq!(kinds[5], Token::LeftParen);
    assert!(matches!(kinds[6], Token::Identifier(_)));
    assert_eq!(kinds[7], Token::DoubleColon);
    assert!(matches!(kinds[8], Token::Identifier(_)));
    assert_eq!(kinds[9], Token::RightParen);
    assert_eq!(kinds[10], Token::ThinArrow);
    assert!(matches!(kinds[11], Token::Identifier(_)));
    assert_eq!(kinds[12], Token::LeftCurlyBrace);
    assert!(matches!(kinds[13], Token::Identifier(_)));
    assert_eq!(kinds[14], Token::LeftParen);
    assert!(matches!(kinds[15], Token::Identifier(_)));
    assert_eq!(kinds[16], Token::RightParen);
    assert_eq!(kinds[17], Token::SemiColon);
    assert_eq!(kinds[18], Token::RightCurlyBrace);
    assert_eq!(kinds[19], Token::EndOfFile);
}
