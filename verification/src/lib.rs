//! Front end of a small compiler: a tokenizer that turns raw source bytes
//! into a positioned token stream, and a syntax builder that turns the token
//! stream into a tree of imports and function definitions.
use vstd::prelude::*;

pub mod lexer;
pub mod tokenizer;

verus! {

/// Error type summarizing what can go wrong over the whole pipeline.
#[derive(Debug, Clone, Copy, PartialEq, Eq, Structural)]
pub enum CompileError {
    UnclosedDelimiter,
}

impl From<tokenizer::TokenizationError> for CompileError {
    fn from(e: tokenizer::TokenizationError) -> (r: Self)
        ensures
            r == CompileError::UnclosedDelimiter,
    {
        match e {
            tokenizer::TokenizationError::UnclosedDelimiter => CompileError::UnclosedDelimiter,
        }
    }
}

impl vstd::std_specs::convert::FromSpecImpl<tokenizer::TokenizationError> for CompileError {
    open spec fn obeys_from_spec() -> bool {
        true
    }

    open spec fn from_spec(e: tokenizer::TokenizationError) -> CompileError {
        CompileError::UnclosedDelimiter
    }
}

} // verus!
