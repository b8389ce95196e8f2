//! Syntax builder: consumes the positioned token stream with one-token
//! lookahead and recognizes the two top-level forms — import statements
//! and function definitions — assembling a syntax tree. Function bodies
//! are sequences of call-expression statements, and call expressions may
//! nest as arguments. The builder never re-reads raw text: all literal
//! content is carried as spans into the original source buffer.
use crate::tokenizer::{FileToken, Span, Token};
use vstd::prelude::*;

verus! {

/// What can go wrong while recognizing the grammar.
#[derive(Debug, Clone, Copy, PartialEq, Eq, Structural)]
pub enum LexerError {
    /// A token stands where the grammar does not allow it.
    UnexpectedToken,
    /// The input ended in the middle of a construct.
    NoRemainingTokens,
}

/// A syntax error together with the 1-based position of the token at
/// which the parse stopped.
#[derive(Debug, Clone, Copy, PartialEq, Eq, Structural)]
pub struct FileLexerError {
    pub line: usize,
    pub column: usize,
    pub error: LexerError,
}

/// One declared parameter of a function definition: its name and the
/// name of its type, both spans of the source buffer.
#[derive(Debug, Clone, Copy, PartialEq, Eq, Structural)]
pub struct Parameter {
    pub name: Span,
    pub ty_name: Span,
}

/// A call expression: a callee name and its arguments in source order.
#[derive(Debug)]
pub struct CallExpression {
    pub name: Span,
    pub arguments: Vec<Argument>,
}

/// One argument of a call expression: a string literal, a bare named
/// reference, or a nested call expression.
#[derive(Debug)]
pub enum Argument {
    StringLiteral(Span),
    Identifier(Span),
    Call(CallExpression),
}

/// One top-level syntax node, in source order: an import statement or a
/// function definition whose body is a sequence of call statements.
#[derive(Debug)]
pub enum Lexeme {
    Import { library_path: Span },
    FunctionDefinition {
        name: Span,
        parameters: Vec<Parameter>,
        return_type: Option<Span>,
        body: Vec<CallExpression>,
    },
}

/// The input is exhausted at cursor `i`: past the end of the token list
/// or at the `EndOfFile` token.
pub open spec fn ended(ts: Seq<FileToken>, i: int) -> bool {
    i >= ts.len() || ts[i].token is EndOfFile
}

/// The error value reported for cursor `i`: positioned at the token
/// there, or at the last token when the cursor is past the end, or at
/// line 1, column 1 for an empty token list.
pub open spec fn err_at(ts: Seq<FileToken>, i: int, e: LexerError) -> FileLexerError {
    if 0 <= i < ts.len() {
        FileLexerError { line: ts[i].line, column: ts[i].column, error: e }
    } else if ts.len() > 0 {
        FileLexerError {
            line: ts[ts.len() - 1].line,
            column: ts[ts.len() - 1].column,
            error: e,
        }
    } else {
        FileLexerError { line: 1, column: 1, error: e }
    }
}

/// Recognizes an import statement at cursor `i` (whose token is
/// `Import`): exactly one `StringLiteral`, then `SemiColon`. Returns the
/// cursor past the statement, or the first mismatch.
pub open spec fn chk_import(ts: Seq<FileToken>, i: int) -> Result<int, FileLexerError> {
    if ended(ts, i + 1) {
        Err(err_at(ts, i + 1, LexerError::NoRemainingTokens))
    } else if !(ts[i + 1].token is StringLiteral) {
        Err(err_at(ts, i + 1, LexerError::UnexpectedToken))
    } else if ended(ts, i + 2) {
        Err(err_at(ts, i + 2, LexerError::NoRemainingTokens))
    } else if !(ts[i + 2].token is SemiColon) {
        Err(err_at(ts, i + 2, LexerError::UnexpectedToken))
    } else {
        Ok(i + 3)
    }
}

/// Recognizes a call expression at cursor `i`: `Identifier`, `LeftParen`,
/// comma-separated arguments, `RightParen`. Returns the cursor past the
/// closing parenthesis.
pub open spec fn chk_call(ts: Seq<FileToken>, i: int) -> Result<int, FileLexerError>
    decreases ts.len() - i, 0int,
{
    if ended(ts, i) {
        Err(err_at(ts, i, LexerError::NoRemainingTokens))
    } else if !(ts[i].token is Identifier) {
        Err(err_at(ts, i, LexerError::UnexpectedToken))
    } else if ended(ts, i + 1) {
        Err(err_at(ts, i + 1, LexerError::NoRemainingTokens))
    } else if !(ts[i + 1].token is LeftParen) {
        Err(err_at(ts, i + 1, LexerError::UnexpectedToken))
    } else {
        chk_args(ts, i + 2)
    }
}

/// Recognizes an argument list from cursor `i` up to and past its
/// closing `RightParen`: either the list is empty, or arguments follow
/// separated by commas.
pub open spec fn chk_args(ts: Seq<FileToken>, i: int) -> Result<int, FileLexerError>
    decreases ts.len() - i, 3int,
{
    if ended(ts, i) {
        Err(err_at(ts, i, LexerError::NoRemainingTokens))
    } else if ts[i].token is RightParen {
        Ok(i + 1)
    } else {
        chk_args_tail(ts, i)
    }
}

/// Recognizes a non-empty argument list from cursor `i` up to and past
/// its closing `RightParen`.
pub open spec fn chk_args_tail(ts: Seq<FileToken>, i: int) -> Result<int, FileLexerError>
    decreases ts.len() - i, 2int,
{
    match chk_arg(ts, i) {
        Err(e) => Err(e),
        Ok(j) => if i < j && j <= ts.len() {
            if ended(ts, j) {
                Err(err_at(ts, j, LexerError::NoRemainingTokens))
            } else if ts[j].token is Comma {
                chk_args_tail(ts, j + 1)
            } else if ts[j].token is RightParen {
                Ok(j + 1)
            } else {
                Err(err_at(ts, j, LexerError::UnexpectedToken))
            }
        } else {
            // Never taken (lemma_chk_arg_bounds); it only keeps the
            // recursion well-founded.
            Err(err_at(ts, i, LexerError::UnexpectedToken))
        },
    }
}

/// Recognizes one argument at cursor `i`: a string literal, a nested
/// call expression when a `LeftParen` follows the identifier, or a bare
/// named reference otherwise.
pub open spec fn chk_arg(ts: Seq<FileToken>, i: int) -> Result<int, FileLexerError>
    decreases ts.len() - i, 1int,
{
    if ended(ts, i) {
        Err(err_at(ts, i, LexerError::NoRemainingTokens))
    } else if ts[i].token is StringLiteral {
        Ok(i + 1)
    } else if ts[i].token is Identifier {
        if i + 1 < ts.len() && ts[i + 1].token is LeftParen {
            chk_call(ts, i)
        } else {
            Ok(i + 1)
        }
    } else {
        Err(err_at(ts, i, LexerError::UnexpectedToken))
    }
}

/// Recognizes a parameter list from cursor `i` (just past the opening
/// `LeftParen`) up to and past its closing `RightParen`.
pub open spec fn chk_params(ts: Seq<FileToken>, i: int) -> Result<int, FileLexerError> {
    if ended(ts, i) {
        Err(err_at(ts, i, LexerError::NoRemainingTokens))
    } else if ts[i].token is RightParen {
        Ok(i + 1)
    } else {
        chk_params_tail(ts, i)
    }
}

/// Recognizes a non-empty parameter list: `Identifier`, `DoubleColon`,
/// `Identifier`, then either a `Comma` and another parameter or the
/// closing `RightParen`.
pub open spec fn chk_params_tail(ts: Seq<FileToken>, i: int) -> Result<int, FileLexerError>
    decreases ts.len() - i,
{
    if ended(ts, i) {
        Err(err_at(ts, i, LexerError::NoRemainingTokens))
    } else if !(ts[i].token is Identifier) {
        Err(err_at(ts, i, LexerError::UnexpectedToken))
    } else if ended(ts, i + 1) {
        Err(err_at(ts, i + 1, LexerError::NoRemainingTokens))
    } else if !(ts[i + 1].token is DoubleColon) {
        Err(err_at(ts, i + 1, LexerError::UnexpectedToken))
    } else if ended(ts, i + 2) {
        Err(err_at(ts, i + 2, LexerError::NoRemainingTokens))
    } else if !(ts[i + 2].token is Identifier) {
        Err(err_at(ts, i + 2, LexerError::UnexpectedToken))
    } else if ended(ts, i + 3) {
        Err(err_at(ts, i + 3, LexerError::NoRemainingTokens))
    } else if ts[i + 3].token is Comma {
        chk_params_tail(ts, i + 4)
    } else if ts[i + 3].token is RightParen {
        Ok(i + 4)
    } else {
        Err(err_at(ts, i + 3, LexerError::UnexpectedToken))
    }
}

/// Recognizes the statements of a function body from cursor `i` (just
/// past the opening `LeftCurlyBrace`) up to and past the closing
/// `RightCurlyBrace`: zero or more call statements, each ended by a
/// `SemiColon`.
pub open spec fn chk_body(ts: Seq<FileToken>, i: int) -> Result<int, FileLexerError>
    decreases ts.len() - i,
{
    if ended(ts, i) {
        Err(err_at(ts, i, LexerError::NoRemainingTokens))
    } else if ts[i].token is RightCurlyBrace {
        Ok(i + 1)
    } else {
        match chk_call(ts, i) {
            Err(e) => Err(e),
            Ok(j) => if i < j && j <= ts.len() {
                if ended(ts, j) {
                    Err(err_at(ts, j, LexerError::NoRemainingTokens))
                } else if ts[j].token is SemiColon {
                    chk_body(ts, j + 1)
                } else {
                    Err(err_at(ts, j, LexerError::UnexpectedToken))
                }
            } else {
                // Never taken (lemma_chk_call_bounds); it only keeps the
                // recursion well-founded.
                Err(err_at(ts, i, LexerError::UnexpectedToken))
            },
        }
    }
}

/// Recognizes a function definition at cursor `i` (whose token is `Fn`):
/// name, parameter list, optional `ThinArrow` return type, brace-enclosed
/// body. Returns the cursor past the closing brace.
pub open spec fn chk_function(ts: Seq<FileToken>, i: int) -> Result<int, FileLexerError> {
    if ended(ts, i + 1) {
        Err(err_at(ts, i + 1, LexerError::NoRemainingTokens))
    } else if !(ts[i + 1].token is Identifier) {
        Err(err_at(ts, i + 1, LexerError::UnexpectedToken))
    } else if ended(ts, i + 2) {
        Err(err_at(ts, i + 2, LexerError::NoRemainingTokens))
    } else if !(ts[i + 2].token is LeftParen) {
        Err(err_at(ts, i + 2, LexerError::UnexpectedToken))
    } else {
        match chk_params(ts, i + 3) {
            Err(e) => Err(e),
            Ok(pj) => {
                if !ended(ts, pj) && ts[pj].token is ThinArrow {
                    if ended(ts, pj + 1) {
                        Err(err_at(ts, pj + 1, LexerError::NoRemainingTokens))
                    } else if !(ts[pj + 1].token is Identifier) {
                        Err(err_at(ts, pj + 1, LexerError::UnexpectedToken))
                    } else {
                        chk_block(ts, pj + 2)
                    }
                } else {
                    chk_block(ts, pj)
                }
            },
        }
    }
}

/// Recognizes a brace-enclosed body at cursor `i`: `LeftCurlyBrace`, the
/// statements, `RightCurlyBrace`.
pub open spec fn chk_block(ts: Seq<FileToken>, i: int) -> Result<int, FileLexerError> {
    if ended(ts, i) {
        Err(err_at(ts, i, LexerError::NoRemainingTokens))
    } else if !(ts[i].token is LeftCurlyBrace) {
        Err(err_at(ts, i, LexerError::UnexpectedToken))
    } else {
        chk_body(ts, i + 1)
    }
}

/// Recognizes a whole program from cursor `i`: top-level forms dispatched
/// on one token of lookahead until the token list or its `EndOfFile`
/// token is reached. `Ok` exactly when the token list is a well-formed
/// program; otherwise the error of the first structural mismatch.
pub open spec fn chk_program(ts: Seq<FileToken>, i: int) -> Result<(), FileLexerError>
    decreases ts.len() - i,
{
    if i >= ts.len() {
        Ok(())
    } else if ts[i].token is EndOfFile {
        Ok(())
    } else if ts[i].token is Import {
        match chk_import(ts, i) {
            Err(e) => Err(e),
            Ok(j) => if i < j && j <= ts.len() {
                chk_program(ts, j)
            } else {
                // Never taken: an import statement always consumes three
                // tokens; it only keeps the recursion well-founded.
                Err(err_at(ts, i, LexerError::UnexpectedToken))
            },
        }
    } else if ts[i].token is Fn {
        match chk_function(ts, i) {
            Err(e) => Err(e),
            Ok(j) => if i < j && j <= ts.len() {
                chk_program(ts, j)
            } else {
                // Never taken (lemma_chk_function_bounds); it only keeps
                // the recursion well-founded.
                Err(err_at(ts, i, LexerError::UnexpectedToken))
            },
        }
    } else {
        Err(err_at(ts, i, LexerError::UnexpectedToken))
    }
}

/// A recognized call expression always moves the cursor forward and
/// stays inside the token list, so the guard arm of [`chk_body`] that
/// keeps its recursion well-founded is never taken.
pub proof fn lemma_chk_call_bounds(ts: Seq<FileToken>, i: int)
    ensures
        chk_call(ts, i) matches Ok(j) ==> i < j <= ts.len(),
    decreases ts.len() - i, 0int,
{
    if !ended(ts, i) && ts[i].token is Identifier && !ended(ts, i + 1) && ts[i + 1].token
        is LeftParen {
        lemma_chk_args_bounds(ts, i + 2);
    }
}

/// A recognized argument list always moves the cursor forward and stays
/// inside the token list.
pub proof fn lemma_chk_args_bounds(ts: Seq<FileToken>, i: int)
    ensures
        chk_args(ts, i) matches Ok(j) ==> i < j <= ts.len(),
    decreases ts.len() - i, 3int,
{
    if !ended(ts, i) && !(ts[i].token is RightParen) {
        lemma_chk_args_tail_bounds(ts, i);
    }
}

/// A recognized non-empty argument list always moves the cursor forward
/// and stays inside the token list, so the guard arm of
/// [`chk_args_tail`] that keeps its recursion well-founded is never
/// taken.
pub proof fn lemma_chk_args_tail_bounds(ts: Seq<FileToken>, i: int)
    ensures
        chk_args_tail(ts, i) matches Ok(j) ==> i < j <= ts.len(),
    decreases ts.len() - i, 2int,
{
    lemma_chk_arg_bounds(ts, i);
    if let Ok(m) = chk_arg(ts, i) {
        if i < m && m <= ts.len() && !ended(ts, m) && ts[m].token is Comma {
            lemma_chk_args_tail_bounds(ts, m + 1);
        }
    }
}

/// A recognized argument always moves the cursor forward and stays
/// inside the token list, so the guard arm of [`chk_args_tail`] that
/// keeps its recursion well-founded is never taken.
pub proof fn lemma_chk_arg_bounds(ts: Seq<FileToken>, i: int)
    ensures
        chk_arg(ts, i) matches Ok(j) ==> i < j <= ts.len(),
    decreases ts.len() - i, 1int,
{
    if !ended(ts, i) && !(ts[i].token is StringLiteral) && ts[i].token is Identifier && i + 1
        < ts.len() && ts[i + 1].token is LeftParen {
        lemma_chk_call_bounds(ts, i);
    }
}

/// A recognized parameter list always moves the cursor forward and stays
/// inside the token list.
pub proof fn lemma_chk_params_bounds(ts: Seq<FileToken>, i: int)
    ensures
        chk_params(ts, i) matches Ok(j) ==> i < j <= ts.len(),
    decreases ts.len() - i,
{
    if !ended(ts, i) && !(ts[i].token is RightParen) {
        lemma_chk_params_tail_bounds(ts, i);
    }
}

/// A recognized non-empty parameter list always moves the cursor forward
/// and stays inside the token list.
pub proof fn lemma_chk_params_tail_bounds(ts: Seq<FileToken>, i: int)
    ensures
        chk_params_tail(ts, i) matches Ok(j) ==> i < j <= ts.len(),
    decreases ts.len() - i,
{
    if !ended(ts, i) && ts[i].token is Identifier && !ended(ts, i + 1) && ts[i + 1].token
        is DoubleColon && !ended(ts, i + 2) && ts[i + 2].token is Identifier && !ended(ts, i + 3)
        && ts[i + 3].token is Comma {
        lemma_chk_params_tail_bounds(ts, i + 4);
    }
}

/// A recognized function body always moves the cursor forward and stays
/// inside the token list, so the guard arm of [`chk_body`] that keeps
/// its recursion well-founded is never taken.
pub proof fn lemma_chk_body_bounds(ts: Seq<FileToken>, i: int)
    ensures
        chk_body(ts, i) matches Ok(j) ==> i < j <= ts.len(),
    decreases ts.len() - i,
{
    if !ended(ts, i) && !(ts[i].token is RightCurlyBrace) {
        lemma_chk_call_bounds(ts, i);
        if let Ok(m) = chk_call(ts, i) {
            if !ended(ts, m) && ts[m].token is SemiColon {
                lemma_chk_body_bounds(ts, m + 1);
            }
        }
    }
}

/// A recognized function definition always moves the cursor forward and
/// stays inside the token list, so the guard arm of [`chk_program`] that
/// keeps its recursion well-founded is never taken.
pub proof fn lemma_chk_function_bounds(ts: Seq<FileToken>, i: int)
    ensures
        chk_function(ts, i) matches Ok(j) ==> i < j <= ts.len(),
{
    lemma_chk_params_bounds(ts, i + 3);
    if let Ok(pj) = chk_params(ts, i + 3) {
        lemma_chk_body_bounds(ts, pj + 1);
        lemma_chk_body_bounds(ts, pj + 3);
    }
}

/// The call expression `c` is exactly what the tokens from cursor `i` up
/// to (exclusive) `j` spell: its name, `LeftParen`, its arguments in
/// order, `RightParen`.
pub open spec fn call_matches(ts: Seq<FileToken>, i: int, c: CallExpression, j: int) -> bool
    decreases ts.len() - i, 0int,
{
    &&& 0 <= i
    &&& i + 2 <= ts.len()
    &&& ts[i].token == Token::Identifier(c.name)
    &&& ts[i + 1].token is LeftParen
    &&& args_match(ts, i + 2, c.arguments@, j)
}

/// The argument list `args` is exactly what the tokens from cursor `i`
/// up to (exclusive) `j` spell, including the closing `RightParen`.
pub open spec fn args_match(ts: Seq<FileToken>, i: int, args: Seq<Argument>, j: int) -> bool
    decreases ts.len() - i, 3int,
{
    if args.len() == 0 {
        &&& 0 <= i < ts.len()
        &&& ts[i].token is RightParen
        &&& j == i + 1
    } else {
        args_tail_match(ts, i, args, j)
    }
}

/// The non-empty argument list `args` is exactly what the tokens from
/// cursor `i` up to (exclusive) `j` spell: the arguments separated by
/// commas, then the closing `RightParen`. The seam after the first
/// argument is the cursor that [`chk_arg`] computes for it.
pub open spec fn args_tail_match(ts: Seq<FileToken>, i: int, args: Seq<Argument>, j: int) -> bool
    decreases ts.len() - i, 2int,
{
    &&& args.len() >= 1
    &&& chk_arg(ts, i) is Ok
    &&& {
        let m = chk_arg(ts, i)->Ok_0;
        &&& i < m < ts.len()
        &&& arg_matches(ts, i, args[0], m)
        &&& if args.len() == 1 {
            ts[m].token is RightParen && j == m + 1
        } else {
            ts[m].token is Comma && args_tail_match(ts, m + 1, args.drop_first(), j)
        }
    }
}

/// The argument `a` is exactly what the tokens from cursor `i` up to
/// (exclusive) `m` spell: one string literal, one bare named reference
/// (an identifier not followed by `LeftParen`), or a nested call.
pub open spec fn arg_matches(ts: Seq<FileToken>, i: int, a: Argument, m: int) -> bool
    decreases ts.len() - i, 1int,
{
    match a {
        Argument::StringLiteral(sp) => {
            &&& 0 <= i < ts.len()
            &&& ts[i].token == Token::StringLiteral(sp)
            &&& m == i + 1
        },
        Argument::Identifier(sp) => {
            &&& 0 <= i < ts.len()
            &&& ts[i].token == Token::Identifier(sp)
            &&& !(i + 1 < ts.len() && ts[i + 1].token is LeftParen)
            &&& m == i + 1
        },
        Argument::Call(c) => call_matches(ts, i, c, m),
    }
}

/// The parameter list `ps` is exactly what the tokens from cursor `i` up
/// to (exclusive) `j` spell: `name :: type` pairs separated by commas,
/// then the closing `RightParen`.
pub open spec fn params_match(ts: Seq<FileToken>, i: int, ps: Seq<Parameter>, j: int) -> bool
    decreases ps.len(),
{
    if ps.len() == 0 {
        &&& 0 <= i < ts.len()
        &&& ts[i].token is RightParen
        &&& j == i + 1
    } else {
        &&& 0 <= i
        &&& i + 4 <= ts.len()
        &&& ts[i].token == Token::Identifier(ps[0].name)
        &&& ts[i + 1].token is DoubleColon
        &&& ts[i + 2].token == Token::Identifier(ps[0].ty_name)
        &&& if ps.len() == 1 {
            ts[i + 3].token is RightParen && j == i + 4
        } else {
            ts[i + 3].token is Comma && params_match(ts, i + 4, ps.drop_first(), j)
        }
    }
}

/// The statement list `calls` is exactly what the tokens from cursor `i`
/// up to (exclusive) `j` spell: call statements each closed by a
/// `SemiColon`, then the closing `RightCurlyBrace`.
pub open spec fn body_matches(ts: Seq<FileToken>, i: int, calls: Seq<CallExpression>, j: int) -> bool
    decreases calls.len(),
{
    if calls.len() == 0 {
        &&& 0 <= i < ts.len()
        &&& ts[i].token is RightCurlyBrace
        &&& j == i + 1
    } else {
        &&& chk_call(ts, i) is Ok
        &&& {
            let m = chk_call(ts, i)->Ok_0;
            &&& 0 <= i < m < ts.len()
            &&& call_matches(ts, i, calls[0], m)
            &&& ts[m].token is SemiColon
            &&& body_matches(ts, m + 1, calls.drop_first(), j)
        }
    }
}

/// The syntax node `n` is exactly what the tokens from cursor `i` up to
/// (exclusive) `j` spell: an import statement, or a function definition
/// with its name, parameters, optional return type and body.
pub open spec fn node_matches(ts: Seq<FileToken>, i: int, n: Lexeme, j: int) -> bool {
    match n {
        Lexeme::Import { library_path } => {
            &&& 0 <= i
            &&& i + 3 == j <= ts.len()
            &&& ts[i].token is Import
            &&& ts[i + 1].token == Token::StringLiteral(library_path)
            &&& ts[i + 2].token is SemiColon
        },
        Lexeme::FunctionDefinition { name, parameters, return_type, body } => {
            &&& 0 <= i
            &&& i + 3 <= ts.len()
            &&& ts[i].token is Fn
            &&& ts[i + 1].token == Token::Identifier(name)
            &&& ts[i + 2].token is LeftParen
            &&& chk_params(ts, i + 3) is Ok
            &&& {
                let pj = chk_params(ts, i + 3)->Ok_0;
                let bj = match return_type {
                    Some(_) => pj + 2,
                    None => pj,
                };
                &&& i + 3 < pj <= ts.len()
                &&& params_match(ts, i + 3, parameters@, pj)
                &&& match return_type {
                    Some(rt) => {
                        &&& pj + 1 < ts.len()
                        &&& ts[pj].token is ThinArrow
                        &&& ts[pj + 1].token == Token::Identifier(rt)
                    },
                    None => !(pj < ts.len() && ts[pj].token is ThinArrow),
                }
                &&& bj < ts.len()
                &&& ts[bj].token is LeftCurlyBrace
                &&& body_matches(ts, bj + 1, body@, j)
            }
        },
    }
}

/// The cursor just past the node `n` when it stands at cursor `i`: three
/// tokens for an import statement, the checker's cursor for a function
/// definition.
pub open spec fn node_end(ts: Seq<FileToken>, i: int, n: Lexeme) -> int {
    match n {
        Lexeme::Import { .. } => i + 3,
        Lexeme::FunctionDefinition { .. } => if chk_function(ts, i) is Ok {
            chk_function(ts, i)->Ok_0
        } else {
            i
        },
    }
}

/// The node list `ns` is exactly what the tokens from cursor `i` up to
/// (exclusive) `j` spell, in source order.
/// The cursor just past the node list `ns` when it starts at cursor `i`.
pub open spec fn nodes_end(ts: Seq<FileToken>, i: int, ns: Seq<Lexeme>) -> int
    decreases ns.len(),
{
    if ns.len() == 0 {
        i
    } else {
        nodes_end(ts, node_end(ts, i, ns[0]), ns.drop_first())
    }
}

pub open spec fn nodes_match(ts: Seq<FileToken>, i: int, ns: Seq<Lexeme>, j: int) -> bool
    decreases ns.len(),
{
    if ns.len() == 0 {
        j == i
    } else {
        &&& node_matches(ts, i, ns[0], node_end(ts, i, ns[0]))
        &&& nodes_match(ts, node_end(ts, i, ns[0]), ns.drop_first(), j)
    }
}

/// Exec mirror of [`ended`].
fn at_end(tokens: &Vec<FileToken>, i: usize) -> (r: bool)
    ensures
        r == ended(tokens@, i as int),
        tokens@.len() <= usize::MAX,
{
    i >= tokens.len() || matches!(tokens[i].token, Token::EndOfFile)
}

/// Exec mirror of [`err_at`].
fn err_here(tokens: &Vec<FileToken>, i: usize, e: LexerError) -> (r: FileLexerError)
    ensures
        r == err_at(tokens@, i as int, e),
{
    if i < tokens.len() {
        FileLexerError { line: tokens[i].line, column: tokens[i].column, error: e }
    } else if tokens.len() > 0 {
        FileLexerError {
            line: tokens[tokens.len() - 1].line,
            column: tokens[tokens.len() - 1].column,
            error: e,
        }
    } else {
        FileLexerError { line: 1, column: 1, error: e }
    }
}

/// Builds the import statement that starts at cursor `i`.
fn lex_import(tokens: &Vec<FileToken>, i: usize) -> (r: Result<(Lexeme, usize), FileLexerError>)
    requires
        i < tokens@.len() <= usize::MAX,
        tokens@[i as int].token is Import,
    ensures
        r matches Ok((n, j)) ==> {
            &&& chk_import(tokens@, i as int) == Ok::<int, FileLexerError>(j as int)
            &&& node_matches(tokens@, i as int, n, j as int)
            &&& node_end(tokens@, i as int, n) == j as int
            &&& i < j <= tokens@.len()
        },
        r matches Err(e) ==> chk_import(tokens@, i as int) == Err::<int, FileLexerError>(e),
{
    if at_end(tokens, i + 1) {
        return Err(err_here(tokens, i + 1, LexerError::NoRemainingTokens));
    }
    let library_path = match tokens[i + 1].token {
        Token::StringLiteral(sp) => sp,
        _ => { return Err(err_here(tokens, i + 1, LexerError::UnexpectedToken)) },
    };
    if at_end(tokens, i + 2) {
        return Err(err_here(tokens, i + 2, LexerError::NoRemainingTokens));
    }
    if !matches!(tokens[i + 2].token, Token::SemiColon) {
        return Err(err_here(tokens, i + 2, LexerError::UnexpectedToken));
    }
    Ok((Lexeme::Import { library_path }, i + 3))
}

/// Builds the call expression that starts at cursor `i`.
fn lex_call(tokens: &Vec<FileToken>, i: usize) -> (r: Result<
    (CallExpression, usize),
    FileLexerError,
>)
    ensures
        r matches Ok((c, j)) ==> {
            &&& chk_call(tokens@, i as int) == Ok::<int, FileLexerError>(j as int)
            &&& call_matches(tokens@, i as int, c, j as int)
            &&& i < j <= tokens@.len()
        },
        r matches Err(e) ==> chk_call(tokens@, i as int) == Err::<int, FileLexerError>(e),
    decreases tokens@.len() - i, 0int,
{
    if at_end(tokens, i) {
        return Err(err_here(tokens, i, LexerError::NoRemainingTokens));
    }
    let name = match tokens[i].token {
        Token::Identifier(sp) => sp,
        _ => { return Err(err_here(tokens, i, LexerError::UnexpectedToken)) },
    };
    if at_end(tokens, i + 1) {
        return Err(err_here(tokens, i + 1, LexerError::NoRemainingTokens));
    }
    if !matches!(tokens[i + 1].token, Token::LeftParen) {
        return Err(err_here(tokens, i + 1, LexerError::UnexpectedToken));
    }
    match lex_args(tokens, i + 2) {
        Err(e) => Err(e),
        Ok((arguments, j)) => Ok((CallExpression { name, arguments }, j)),
    }
}

/// Builds the argument list that starts at cursor `i`, up to and past
/// its closing `RightParen`.
fn lex_args(tokens: &Vec<FileToken>, i: usize) -> (r: Result<(Vec<Argument>, usize), FileLexerError>)
    ensures
        r matches Ok((args, j)) ==> {
            &&& chk_args(tokens@, i as int) == Ok::<int, FileLexerError>(j as int)
            &&& args_match(tokens@, i as int, args@, j as int)
            &&& i < j <= tokens@.len()
        },
        r matches Err(e) ==> chk_args(tokens@, i as int) == Err::<int, FileLexerError>(e),
    decreases tokens@.len() - i, 3int,
{
    if at_end(tokens, i) {
        return Err(err_here(tokens, i, LexerError::NoRemainingTokens));
    }
    if matches!(tokens[i].token, Token::RightParen) {
        return Ok((Vec::new(), i + 1));
    }
    lex_args_tail(tokens, i)
}

/// Builds a non-empty argument list that starts at cursor `i`, up to and
/// past its closing `RightParen`.
fn lex_args_tail(tokens: &Vec<FileToken>, i: usize) -> (r: Result<
    (Vec<Argument>, usize),
    FileLexerError,
>)
    ensures
        r matches Ok((args, j)) ==> {
            &&& chk_args_tail(tokens@, i as int) == Ok::<int, FileLexerError>(j as int)
            &&& args_tail_match(tokens@, i as int, args@, j as int)
            &&& args@.len() >= 1
            &&& i < j <= tokens@.len()
        },
        r matches Err(e) ==> chk_args_tail(tokens@, i as int) == Err::<int, FileLexerError>(e),
    decreases tokens@.len() - i, 2int,
{
    let (a, m) = match lex_arg(tokens, i) {
        Err(e) => { return Err(e) },
        Ok(x) => x,
    };
    if at_end(tokens, m) {
        return Err(err_here(tokens, m, LexerError::NoRemainingTokens));
    }
    if matches!(tokens[m].token, Token::Comma) {
        match lex_args_tail(tokens, m + 1) {
            Err(e) => Err(e),
            Ok((mut rest, j)) => {
                let ghost prev = rest@;
                rest.insert(0, a);
                proof {
                    assert(rest@ =~= seq![a] + prev);
                    assert(rest@[0] == a);
                    assert(rest@.drop_first() =~= prev);
                    assert(arg_matches(tokens@, i as int, rest@[0], m as int));
                }
                Ok((rest, j))
            },
        }
    } else if matches!(tokens[m].token, Token::RightParen) {
        let mut args: Vec<Argument> = Vec::new();
        args.push(a);
        proof {
            assert(arg_matches(tokens@, i as int, args@[0], m as int));
        }
        Ok((args, m + 1))
    } else {
        Err(err_here(tokens, m, LexerError::UnexpectedToken))
    }
}

/// Builds the one argument that starts at cursor `i`: a string literal,
/// a nested call when `LeftParen` follows the identifier, or a bare
/// named reference.
fn lex_arg(tokens: &Vec<FileToken>, i: usize) -> (r: Result<(Argument, usize), FileLexerError>)
    ensures
        r matches Ok((a, m)) ==> {
            &&& chk_arg(tokens@, i as int) == Ok::<int, FileLexerError>(m as int)
            &&& arg_matches(tokens@, i as int, a, m as int)
            &&& i < m <= tokens@.len()
        },
        r matches Err(e) ==> chk_arg(tokens@, i as int) == Err::<int, FileLexerError>(e),
    decreases tokens@.len() - i, 1int,
{
    if at_end(tokens, i) {
        return Err(err_here(tokens, i, LexerError::NoRemainingTokens));
    }
    match tokens[i].token {
        Token::StringLiteral(sp) => Ok((Argument::StringLiteral(sp), i + 1)),
        Token::Identifier(sp) => {
            if i + 1 < tokens.len() && matches!(tokens[i + 1].token, Token::LeftParen) {
                match lex_call(tokens, i) {
                    Err(e) => Err(e),
                    Ok((c, j)) => Ok((Argument::Call(c), j)),
                }
            } else {
                Ok((Argument::Identifier(sp), i + 1))
            }
        },
        _ => Err(err_here(tokens, i, LexerError::UnexpectedToken)),
    }
}

/// Builds the parameter list that starts at cursor `i` (just past the
/// opening `LeftParen`), up to and past its closing `RightParen`.
fn lex_params(tokens: &Vec<FileToken>, i: usize) -> (r: Result<
    (Vec<Parameter>, usize),
    FileLexerError,
>)
    ensures
        r matches Ok((ps, j)) ==> {
            &&& chk_params(tokens@, i as int) == Ok::<int, FileLexerError>(j as int)
            &&& params_match(tokens@, i as int, ps@, j as int)
            &&& i < j <= tokens@.len()
        },
        r matches Err(e) ==> chk_params(tokens@, i as int) == Err::<int, FileLexerError>(e),
{
    if at_end(tokens, i) {
        return Err(err_here(tokens, i, LexerError::NoRemainingTokens));
    }
    if matches!(tokens[i].token, Token::RightParen) {
        return Ok((Vec::new(), i + 1));
    }
    lex_params_tail(tokens, i)
}

/// Builds a non-empty parameter list that starts at cursor `i`, up to
/// and past its closing `RightParen`.
fn lex_params_tail(tokens: &Vec<FileToken>, i: usize) -> (r: Result<
    (Vec<Parameter>, usize),
    FileLexerError,
>)
    ensures
        r matches Ok((ps, j)) ==> {
            &&& chk_params_tail(tokens@, i as int) == Ok::<int, FileLexerError>(j as int)
            &&& params_match(tokens@, i as int, ps@, j as int)
            &&& ps@.len() >= 1
            &&& i < j <= tokens@.len()
        },
        r matches Err(e) ==> chk_params_tail(tokens@, i as int) == Err::<int, FileLexerError>(e),
    decreases tokens@.len() - i,
{
    if at_end(tokens, i) {
        return Err(err_here(tokens, i, LexerError::NoRemainingTokens));
    }
    let name = match tokens[i].token {
        Token::Identifier(sp) => sp,
        _ => { return Err(err_here(tokens, i, LexerError::UnexpectedToken)) },
    };
    if at_end(tokens, i + 1) {
        return Err(err_here(tokens, i + 1, LexerError::NoRemainingTokens));
    }
    if !matches!(tokens[i + 1].token, Token::DoubleColon) {
        return Err(err_here(tokens, i + 1, LexerError::UnexpectedToken));
    }
    if at_end(tokens, i + 2) {
        return Err(err_here(tokens, i + 2, LexerError::NoRemainingTokens));
    }
    let ty_name = match tokens[i + 2].token {
        Token::Identifier(sp) => sp,
        _ => { return Err(err_here(tokens, i + 2, LexerError::UnexpectedToken)) },
    };
    if at_end(tokens, i + 3) {
        return Err(err_here(tokens, i + 3, LexerError::NoRemainingTokens));
    }
    if matches!(tokens[i + 3].token, Token::Comma) {
        match lex_params_tail(tokens, i + 4) {
            Err(e) => Err(e),
            Ok((mut rest, j)) => {
                let ghost prev = rest@;
                rest.insert(0, Parameter { name, ty_name });
                proof {
                    assert(rest@ =~= seq![Parameter { name, ty_name }] + prev);
                    assert(rest@.drop_first() =~= prev);
                }
                Ok((rest, j))
            },
        }
    } else if matches!(tokens[i + 3].token, Token::RightParen) {
        let mut ps: Vec<Parameter> = Vec::new();
        ps.push(Parameter { name, ty_name });
        Ok((ps, i + 4))
    } else {
        Err(err_here(tokens, i + 3, LexerError::UnexpectedToken))
    }
}

/// Builds the statement list of a function body that starts at cursor
/// `i` (just past the opening `LeftCurlyBrace`), up to and past the
/// closing `RightCurlyBrace`.
fn lex_body(tokens: &Vec<FileToken>, i: usize) -> (r: Result<
    (Vec<CallExpression>, usize),
    FileLexerError,
>)
    ensures
        r matches Ok((calls, j)) ==> {
            &&& chk_body(tokens@, i as int) == Ok::<int, FileLexerError>(j as int)
            &&& body_matches(tokens@, i as int, calls@, j as int)
            &&& i < j <= tokens@.len()
        },
        r matches Err(e) ==> chk_body(tokens@, i as int) == Err::<int, FileLexerError>(e),
    decreases tokens@.len() - i,
{
    if at_end(tokens, i) {
        return Err(err_here(tokens, i, LexerError::NoRemainingTokens));
    }
    if matches!(tokens[i].token, Token::RightCurlyBrace) {
        return Ok((Vec::new(), i + 1));
    }
    let (c, m) = match lex_call(tokens, i) {
        Err(e) => { return Err(e) },
        Ok(x) => x,
    };
    if at_end(tokens, m) {
        return Err(err_here(tokens, m, LexerError::NoRemainingTokens));
    }
    if !matches!(tokens[m].token, Token::SemiColon) {
        return Err(err_here(tokens, m, LexerError::UnexpectedToken));
    }
    match lex_body(tokens, m + 1) {
        Err(e) => Err(e),
        Ok((mut rest, j)) => {
            let ghost prev = rest@;
            rest.insert(0, c);
            proof {
                assert(rest@ =~= seq![c] + prev);
                assert(rest@.drop_first() =~= prev);
                assert(call_matches(tokens@, i as int, rest@[0], m as int));
            }
            Ok((rest, j))
        },
    }
}

/// Builds the function definition that starts at cursor `i`.
fn lex_function(tokens: &Vec<FileToken>, i: usize) -> (r: Result<(Lexeme, usize), FileLexerError>)
    requires
        i < tokens@.len() <= usize::MAX,
        tokens@[i as int].token is Fn,
    ensures
        r matches Ok((n, j)) ==> {
            &&& chk_function(tokens@, i as int) == Ok::<int, FileLexerError>(j as int)
            &&& node_matches(tokens@, i as int, n, j as int)
            &&& node_end(tokens@, i as int, n) == j as int
            &&& i < j <= tokens@.len()
        },
        r matches Err(e) ==> chk_function(tokens@, i as int) == Err::<int, FileLexerError>(e),
{
    if at_end(tokens, i + 1) {
        return Err(err_here(tokens, i + 1, LexerError::NoRemainingTokens));
    }
    let name = match tokens[i + 1].token {
        Token::Identifier(sp) => sp,
        _ => { return Err(err_here(tokens, i + 1, LexerError::UnexpectedToken)) },
    };
    if at_end(tokens, i + 2) {
        return Err(err_here(tokens, i + 2, LexerError::NoRemainingTokens));
    }
    if !matches!(tokens[i + 2].token, Token::LeftParen) {
        return Err(err_here(tokens, i + 2, LexerError::UnexpectedToken));
    }
    let (parameters, pj) = match lex_params(tokens, i + 3) {
        Err(e) => { return Err(e) },
        Ok(x) => x,
    };
    let has_arrow = !at_end(tokens, pj) && matches!(tokens[pj].token, Token::ThinArrow);
    let (return_type, bj): (Option<Span>, usize) = if has_arrow {
        if at_end(tokens, pj + 1) {
            return Err(err_here(tokens, pj + 1, LexerError::NoRemainingTokens));
        }
        let rt = match tokens[pj + 1].token {
            Token::Identifier(sp) => sp,
            _ => { return Err(err_here(tokens, pj + 1, LexerError::UnexpectedToken)) },
        };
        (Some(rt), pj + 2)
    } else {
        (None, pj)
    };
    if at_end(tokens, bj) {
        return Err(err_here(tokens, bj, LexerError::NoRemainingTokens));
    }
    if !matches!(tokens[bj].token, Token::LeftCurlyBrace) {
        return Err(err_here(tokens, bj, LexerError::UnexpectedToken));
    }
    let (body, j) = match lex_body(tokens, bj + 1) {
        Err(e) => { return Err(e) },
        Ok(x) => x,
    };
    Ok((Lexeme::FunctionDefinition { name, parameters, return_type, body }, j))
}

/// Turns a list of `ns` lexemes back into the claim that it matches the
/// token list from cursor `i` up to `j`, after one more node matching at
/// the seam is appended.
proof fn lemma_nodes_snoc(ts: Seq<FileToken>, i: int, ns: Seq<Lexeme>, m: int, n: Lexeme, j: int)
    requires
        nodes_match(ts, i, ns, m),
        nodes_end(ts, i, ns) == m,
        node_matches(ts, m, n, j),
        node_end(ts, m, n) == j,
    ensures
        nodes_match(ts, i, ns.push(n), j),
        nodes_end(ts, i, ns.push(n)) == j,
    decreases ns.len(),
{
    if ns.len() == 0 {
        assert(m == i);
        assert(ns.push(n)[0] == n);
        assert(ns.push(n).drop_first() =~= Seq::<Lexeme>::empty());
        assert(nodes_match(ts, j, ns.push(n).drop_first(), j));
        assert(nodes_end(ts, j, ns.push(n).drop_first()) == j);
    } else {
        let m0 = node_end(ts, i, ns[0]);
        lemma_nodes_snoc(ts, m0, ns.drop_first(), m, n, j);
        assert(ns.push(n)[0] == ns[0]);
        assert(ns.push(n).drop_first() =~= ns.drop_first().push(n));
        assert(nodes_end(ts, i, ns.push(n)) == nodes_end(
            ts,
            m0,
            ns.drop_first().push(n),
        ));
    }
}

impl Lexeme {
    /// Builds the syntax tree of a whole token list: the top-level
    /// import statements and function definitions in source order, read
    /// with one token of lookahead until the list or its `EndOfFile`
    /// token is reached.
    ///
    /// Returns the nodes exactly when [`chk_program`] accepts the token
    /// list, and the produced nodes spell out exactly the consumed
    /// tokens ([`nodes_match`]); otherwise the error of the first
    /// structural mismatch, positioned at the offending token.
    pub fn parse_from(tokens: &Vec<FileToken>) -> (r: Result<Vec<Lexeme>, FileLexerError>)
        ensures
            r matches Ok(ns) ==> {
                &&& chk_program(tokens@, 0) == Ok::<(), FileLexerError>(())
                &&& 0 <= nodes_end(tokens@, 0, ns@) <= tokens@.len()
                &&& nodes_match(tokens@, 0, ns@, nodes_end(tokens@, 0, ns@))
                &&& ended(tokens@, nodes_end(tokens@, 0, ns@))
            },
            r matches Err(e) ==> chk_program(tokens@, 0) == Err::<(), FileLexerError>(e),
    {
        let mut lexemes: Vec<Lexeme> = Vec::new();
        let mut i: usize = 0;
        loop
            invariant
                i <= tokens@.len(),
                nodes_match(tokens@, 0, lexemes@, i as int),
                nodes_end(tokens@, 0, lexemes@) == i as int,
                chk_program(tokens@, i as int) == Ok::<(), FileLexerError>(()) ==> chk_program(
                    tokens@,
                    0,
                ) == Ok::<(), FileLexerError>(()),
                chk_program(tokens@, i as int) matches Err(e) ==> chk_program(tokens@, 0) == Err::<
                    (),
                    FileLexerError,
                >(e),
            decreases tokens@.len() - i,
        {
            if i >= tokens.len() {
                proof {
                    assert(chk_program(tokens@, i as int) == Ok::<(), FileLexerError>(()));
                    assert(0 <= i as int <= tokens@.len() && nodes_match(
                        tokens@,
                        0,
                        lexemes@,
                        i as int,
                    ) && ended(tokens@, i as int));
                }
                return Ok(lexemes);
            }
            match tokens[i].token {
                Token::EndOfFile => {
                    proof {
                        assert(chk_program(tokens@, i as int) == Ok::<(), FileLexerError>(()));
                        assert(0 <= i as int <= tokens@.len() && nodes_match(
                            tokens@,
                            0,
                            lexemes@,
                            i as int,
                        ) && ended(tokens@, i as int));
                    }
                    return Ok(lexemes)
                },
                Token::Import => {
                    match lex_import(tokens, i) {
                        Err(e) => { return Err(e) },
                        Ok((n, j)) => {
                            proof {
                                lemma_nodes_snoc(
                                    tokens@,
                                    0,
                                    lexemes@,
                                    i as int,
                                    n,
                                    j as int,
                                );
                            }
                            lexemes.push(n);
                            i = j;
                        },
                    }
                },
                Token::Fn => {
                    match lex_function(tokens, i) {
                        Err(e) => { return Err(e) },
                        Ok((n, j)) => {
                            proof {
                                lemma_nodes_snoc(
                                    tokens@,
                                    0,
                                    lexemes@,
                                    i as int,
                                    n,
                                    j as int,
                                );
                            }
                            lexemes.push(n);
                            i = j;
                        },
                    }
                },
                _ => {
                    return Err(err_here(tokens, i, LexerError::UnexpectedToken));
                },
            }
        }
    }
}

} // verus!
