use osmium::tokenizer::TokenizationError;
use osmium::CompileError;

#[test]
fn tokenization_error_converts_to_compile_error() {
    let e = CompileError::from(TokenizationError::UnclosedDelimiter);
    assert_eq!(e, CompileError::UnclosedDelimiter);
}

#[test]
fn unclosed_literal_surfaces_through_the_pipeline() {
    let err = osmium::tokenizer::Token::parse(b"import \"core").unwrap_err();
    let e = CompileError::from(err.error);
    assert_eq!(e, CompileError::UnclosedDelimiter);
}
