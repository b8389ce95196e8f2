//! Single-pass scanner turning raw source bytes into a positioned token
//! stream.
//!
//! The source is addressed by byte offsets; all multi-byte delimiters of the
//! language are ASCII, so scanning byte by byte is sound for UTF-8 input.
//! Tokens that carry text (`Identifier`, `StringLiteral`) hold a [`Span`],
//! a pair of byte offsets into the original buffer, never a copy.
use vstd::prelude::*;

verus! {

/// A contiguous byte range `start..end` of the original source buffer.
#[derive(Debug, Clone, Copy, PartialEq, Eq, Structural)]
pub struct Span {
    pub start: usize,
    pub end: usize,
}

/// An atomic lexical unit.
///
/// For `StringLiteral` the span covers the characters between the two
/// quotes (escape sequences kept verbatim, so `\"` stays two bytes); the
/// quotes themselves are counted by [`Token::size`] but not part of the
/// span, which is how an empty literal `""` is legal. For `Identifier`
/// the span covers the whole identifier and is never empty.
#[derive(Debug, Clone, Copy, PartialEq, Eq, Structural)]
pub enum Token {
    Import,
    Fn,
    LeftParen,
    RightParen,
    LeftBracket,
    RightBracket,
    LeftCurlyBrace,
    RightCurlyBrace,
    ThinArrow,
    DoubleColon,
    SemiColon,
    Comma,
    EndOfFile,
    StringLiteral(Span),
    Identifier(Span),
}

/// A token together with the 1-based line and column of its first character.
#[derive(Debug, Clone, Copy, PartialEq, Eq, Structural)]
pub struct FileToken {
    pub line: usize,
    pub column: usize,
    pub token: Token,
}

/// What can go wrong while segmenting the character stream.
#[derive(Debug, Clone, Copy, PartialEq, Eq, Structural)]
pub enum TokenizationError {
    UnclosedDelimiter,
}

/// A tokenization error together with the 1-based position of the fault.
#[derive(Debug, Clone, Copy, PartialEq, Eq, Structural)]
pub struct FileTokenizationError {
    pub line: usize,
    pub column: usize,
    pub error: TokenizationError,
}

/// Number of source bytes a token occupies: the full keyword text for
/// keywords and punctuation, span plus the two quotes for string literals.
pub open spec fn spec_size(t: Token) -> int {
    match t {
        Token::Import => 6,
        Token::Fn => 2,
        Token::LeftParen => 1,
        Token::RightParen => 1,
        Token::LeftBracket => 1,
        Token::RightBracket => 1,
        Token::LeftCurlyBrace => 1,
        Token::RightCurlyBrace => 1,
        Token::ThinArrow => 2,
        Token::DoubleColon => 2,
        Token::SemiColon => 1,
        Token::Comma => 1,
        Token::EndOfFile => 0,
        Token::StringLiteral(sp) => sp.end - sp.start + 2,
        Token::Identifier(sp) => sp.end - sp.start,
    }
}

/// A span that is ordered and lies inside a buffer of length `n`.
pub open spec fn span_wf(sp: Span, n: int) -> bool {
    sp.start <= sp.end <= n
}

/// The token's span, if it has one, lies inside a buffer of length `n`.
pub open spec fn token_wf(t: Token, n: int) -> bool {
    match t {
        Token::StringLiteral(sp) => span_wf(sp, n),
        Token::Identifier(sp) => span_wf(sp, n),
        _ => true,
    }
}

/// ASCII codes of the bytes the scanner dispatches on.
pub const B_NEWLINE: u8 = 10;

pub const B_SPACE: u8 = 32;

pub const B_QUOTE: u8 = 34;

pub const B_COMMA: u8 = 44;

pub const B_DASH: u8 = 45;

pub const B_COLON: u8 = 58;

pub const B_SEMI: u8 = 59;

pub const B_GREATER: u8 = 62;

pub const B_LBRACKET: u8 = 91;

pub const B_BACKSLASH: u8 = 92;

pub const B_RBRACKET: u8 = 93;

pub const B_LPAREN: u8 = 40;

pub const B_RPAREN: u8 = 41;

pub const B_LCURLY: u8 = 123;

pub const B_RCURLY: u8 = 125;

/// ASCII codes of the letters of the word keywords `import` and `fn`.
pub const B_F: u8 = 102;

pub const B_I: u8 = 105;

pub const B_M: u8 = 109;

pub const B_N: u8 = 110;

pub const B_O: u8 = 111;

pub const B_P: u8 = 112;

pub const B_R: u8 = 114;

pub const B_T: u8 = 116;

/// The scanner's whitespace: space and newline.
pub open spec fn is_ws(b: u8) -> bool {
    b == B_SPACE || b == B_NEWLINE
}

/// The punctuation token, if any, that starts at offset `i` of `s`.
/// Two-byte punctuation (`->`, `::`) is matched before any one-byte token.
pub open spec fn punct_at(s: Seq<u8>, i: int) -> Option<Token> {
    if i + 2 <= s.len() && s[i] == B_DASH && s[i + 1] == B_GREATER {
        Some(Token::ThinArrow)
    } else if i + 2 <= s.len() && s[i] == B_COLON && s[i + 1] == B_COLON {
        Some(Token::DoubleColon)
    } else if i < s.len() && s[i] == B_LPAREN {
        Some(Token::LeftParen)
    } else if i < s.len() && s[i] == B_RPAREN {
        Some(Token::RightParen)
    } else if i < s.len() && s[i] == B_LBRACKET {
        Some(Token::LeftBracket)
    } else if i < s.len() && s[i] == B_RBRACKET {
        Some(Token::RightBracket)
    } else if i < s.len() && s[i] == B_LCURLY {
        Some(Token::LeftCurlyBrace)
    } else if i < s.len() && s[i] == B_RCURLY {
        Some(Token::RightCurlyBrace)
    } else if i < s.len() && s[i] == B_SEMI {
        Some(Token::SemiColon)
    } else if i < s.len() && s[i] == B_COMMA {
        Some(Token::Comma)
    } else {
        None
    }
}

/// Whether offset `i` is a token boundary: end of input, whitespace, the
/// start of a punctuation token, or the opening quote of a string literal.
/// The word keywords `import` and `fn` only match when followed by such a
/// boundary, so they are never split out of a longer identifier run.
pub open spec fn boundary_at(s: Seq<u8>, i: int) -> bool {
    ||| i >= s.len()
    ||| is_ws(s[i])
    ||| s[i] == B_QUOTE
    ||| punct_at(s, i) is Some
}

/// The keyword `import` starts at offset `i` and ends at a token boundary.
pub open spec fn import_at(s: Seq<u8>, i: int) -> bool {
    &&& i + 6 <= s.len()
    &&& s[i] == B_I
    &&& s[i + 1] == B_M
    &&& s[i + 2] == B_P
    &&& s[i + 3] == B_O
    &&& s[i + 4] == B_R
    &&& s[i + 5] == B_T
    &&& boundary_at(s, i + 6)
}

/// The keyword `fn` starts at offset `i` and ends at a token boundary.
pub open spec fn fn_at(s: Seq<u8>, i: int) -> bool {
    &&& i + 2 <= s.len()
    &&& s[i] == B_F
    &&& s[i + 1] == B_N
    &&& boundary_at(s, i + 2)
}

/// The keyword or punctuation token, if any, that starts at offset `i`.
pub open spec fn keyword_at(s: Seq<u8>, i: int) -> Option<Token> {
    if import_at(s, i) {
        Some(Token::Import)
    } else if fn_at(s, i) {
        Some(Token::Fn)
    } else {
        punct_at(s, i)
    }
}

/// Offset of the quote closing a string literal whose content starts at
/// `j`, or `None` if end of input or a raw newline comes first. A quote
/// immediately preceded by a backslash is escaped and does not close.
pub open spec fn lit_close(s: Seq<u8>, j: int) -> Option<int>
    decreases s.len() - j,
{
    if j >= s.len() {
        None
    } else if s[j] == B_QUOTE && s[j - 1] != B_BACKSLASH {
        Some(j)
    } else if s[j] == B_NEWLINE {
        None
    } else {
        lit_close(s, j + 1)
    }
}

/// End of the identifier run that is under way at offset `j`: the first
/// offset at or past `j` that is a boundary or starts a keyword.
pub open spec fn ident_end(s: Seq<u8>, j: int) -> int
    decreases s.len() - j,
{
    if j >= s.len() {
        j
    } else if is_ws(s[j]) || s[j] == B_QUOTE || keyword_at(s, j) is Some {
        j
    } else {
        ident_end(s, j + 1)
    }
}

/// The token the scanner recognizes at offset `i`, assuming `i` does not
/// point at whitespace. Keywords and punctuation are tried first, then a
/// string literal, and otherwise the longest identifier run is taken.
pub open spec fn token_at(s: Seq<u8>, i: int) -> Result<Token, TokenizationError> {
    if i >= s.len() {
        Ok(Token::EndOfFile)
    } else if keyword_at(s, i) is Some {
        Ok(keyword_at(s, i)->Some_0)
    } else if s[i] == B_QUOTE {
        match lit_close(s, i + 1) {
            Some(c) => Ok(Token::StringLiteral((Span { start: (i + 1) as usize, end: c as usize }))),
            None => Err(TokenizationError::UnclosedDelimiter),
        }
    } else {
        Ok(Token::Identifier((Span { start: i as usize, end: ident_end(s, i + 1) as usize })))
    }
}

/// First offset at or past `i` that is not whitespace.
pub open spec fn skip_ws(s: Seq<u8>, i: int) -> int
    decreases s.len() - i,
{
    if i >= s.len() {
        i
    } else if is_ws(s[i]) {
        skip_ws(s, i + 1)
    } else {
        i
    }
}

/// 1-based line number of offset `i`: one more than the newlines before it.
pub open spec fn line_of(s: Seq<u8>, i: int) -> int
    decreases i,
{
    if i <= 0 {
        1
    } else {
        line_of(s, i - 1) + if s[i - 1] == B_NEWLINE { 1int } else { 0int }
    }
}

/// 1-based column of offset `i`: its distance to the last newline before it.
pub open spec fn col_of(s: Seq<u8>, i: int) -> int
    decreases i,
{
    if i <= 0 {
        1
    } else if s[i - 1] == B_NEWLINE {
        1
    } else {
        col_of(s, i - 1) + 1
    }
}

/// `skip_ws` never moves backwards, stays inside the buffer, skips only
/// whitespace, and stops at the first byte that is not whitespace.
pub proof fn lemma_skip_ws(s: Seq<u8>, i: int)
    ensures
        i <= skip_ws(s, i),
        i <= s.len() ==> skip_ws(s, i) <= s.len(),
        forall|k: int| i <= k < skip_ws(s, i) ==> is_ws(s[k]),
        skip_ws(s, i) < s.len() ==> !is_ws(s[skip_ws(s, i)]),
    decreases s.len() - i,
{
    if i < s.len() && is_ws(s[i]) {
        lemma_skip_ws(s, i + 1);
    }
}

/// A found closing quote lies inside the buffer, is an unescaped quote,
/// and is the first one: before it there is no newline and no unescaped
/// quote.
pub proof fn lemma_lit_close(s: Seq<u8>, j: int)
    ensures
        lit_close(s, j) matches Some(c) ==> {
            &&& j <= c < s.len()
            &&& s[c] == B_QUOTE
            &&& s[c - 1] != B_BACKSLASH
            &&& forall|k: int|
                j <= k < c ==> #[trigger] s[k] != B_NEWLINE && !(s[k] == B_QUOTE && s[k - 1]
                    != B_BACKSLASH)
        },
    decreases s.len() - j,
{
    if j < s.len() && !(s[j] == B_QUOTE && s[j - 1] != B_BACKSLASH) && s[j] != B_NEWLINE {
        lemma_lit_close(s, j + 1);
    }
}

/// The end of an identifier run never lies before its start, stays inside
/// the buffer, and everything before it is an ordinary identifier byte:
/// not whitespace, not a quote, not the start of a keyword.
pub proof fn lemma_ident_end(s: Seq<u8>, j: int)
    ensures
        j <= ident_end(s, j),
        j <= s.len() ==> ident_end(s, j) <= s.len(),
        forall|k: int|
            j <= k < ident_end(s, j) ==> !is_ws(s[k]) && s[k] != B_QUOTE && keyword_at(s, k) is None,
        ident_end(s, j) < s.len() ==> (is_ws(s[ident_end(s, j)]) || s[ident_end(s, j)] == B_QUOTE
            || keyword_at(s, ident_end(s, j)) is Some),
    decreases s.len() - j,
{
    if j < s.len() && !(is_ws(s[j]) || s[j] == B_QUOTE || keyword_at(s, j) is Some) {
        lemma_ident_end(s, j + 1);
    }
}

/// Lines and columns are 1-based and never exceed the offset plus one.
pub proof fn lemma_pos_bounds(s: Seq<u8>, i: int)
    requires
        0 <= i,
    ensures
        1 <= line_of(s, i) <= i + 1,
        1 <= col_of(s, i) <= i + 1,
    decreases i,
{
    if i > 0 {
        lemma_pos_bounds(s, i - 1);
    }
}

/// A token recognized at a non-whitespace offset inside the buffer
/// consumes at least one byte, stays inside the buffer, and carries a
/// well-formed span.
pub proof fn lemma_token_at_size(s: Seq<u8>, i: int)
    requires
        0 <= i < s.len(),
        s.len() <= usize::MAX,
        !is_ws(s[i]),
    ensures
        token_at(s, i) matches Ok(t) ==> {
            &&& 1 <= spec_size(t)
            &&& i + spec_size(t) <= s.len()
            &&& token_wf(t, s.len() as int)
        },
    decreases s.len() - i,
{
    if keyword_at(s, i) is Some {
    } else if s[i] == B_QUOTE {
        lemma_lit_close(s, i + 1);
    } else {
        lemma_ident_end(s, i + 1);
    }
}

/// The full scan of `s` from offset `i` on: skip whitespace; at the end of
/// the input emit the final `EndOfFile` token; otherwise recognize one
/// token at the cursor and continue behind it, or stop at the first
/// lexical fault and report it with the position of the offending byte.
pub open spec fn spec_tokenize_from(s: Seq<u8>, i: int) -> Result<
    Seq<FileToken>,
    FileTokenizationError,
>
    decreases s.len() - i,
    when 0 <= i && s.len() <= usize::MAX
{
    let j = skip_ws(s, i);
    if j >= s.len() {
        Ok(
            seq![
                FileToken {
                    line: line_of(s, j) as usize,
                    column: col_of(s, j) as usize,
                    token: Token::EndOfFile,
                },
            ],
        )
    } else {
        match token_at(s, j) {
            Err(e) => Err(
                FileTokenizationError {
                    line: line_of(s, j) as usize,
                    column: col_of(s, j) as usize,
                    error: e,
                },
            ),
            Ok(t) => {
                proof {
                    lemma_skip_ws(s, i);
                    lemma_token_at_size(s, j);
                }
                match spec_tokenize_from(s, j + spec_size(t)) {
                    Err(e) => Err(e),
                    Ok(rest) => Ok(
                        seq![
                            FileToken {
                                line: line_of(s, j) as usize,
                                column: col_of(s, j) as usize,
                                token: t,
                            },
                        ] + rest,
                    ),
                }
            },
        }
    }
}

/// The token list `ts` accounts for the whole of `s` from offset `i` on:
/// whitespace stands only between tokens, each token is the one the
/// scanner recognizes at its own offset, and the final token is the
/// `EndOfFile` at the end of the buffer. No byte is skipped or counted
/// twice.
pub open spec fn covers(s: Seq<u8>, i: int, ts: Seq<FileToken>) -> bool
    decreases ts.len(),
{
    let j = skip_ws(s, i);
    if ts.len() == 0 {
        false
    } else if ts.len() == 1 {
        ts[0].token == Token::EndOfFile && j == s.len()
    } else {
        &&& token_at(s, j) == Ok::<Token, TokenizationError>(ts[0].token)
        &&& j < s.len()
        &&& covers(s, j + spec_size(ts[0].token), ts.drop_first())
    }
}

/// Sum of the consumed-lengths of the tokens of `ts`.
pub open spec fn total_size(ts: Seq<FileToken>) -> int
    decreases ts.len(),
{
    if ts.len() == 0 {
        0
    } else {
        spec_size(ts[0].token) + total_size(ts.drop_first())
    }
}

/// Sum of the whitespace gaps that the scan of `ts` skipped, when `ts`
/// covers `s` from offset `i` on.
pub open spec fn total_gaps(s: Seq<u8>, i: int, ts: Seq<FileToken>) -> int
    decreases ts.len(),
{
    let j = skip_ws(s, i);
    if ts.len() <= 1 {
        j - i
    } else {
        (j - i) + total_gaps(s, j + spec_size(ts[0].token), ts.drop_first())
    }
}

/// A successful scan covers its input: every emitted token stands at its
/// own offset and the buffer ends right after the `EndOfFile` token.
pub proof fn lemma_tokenize_covers(s: Seq<u8>, i: int)
    requires
        0 <= i <= s.len(),
        s.len() < usize::MAX,
    ensures
        spec_tokenize_from(s, i) matches Ok(ts) ==> covers(s, i, ts),
    decreases s.len() - i,
{
    lemma_skip_ws(s, i);
    let j = skip_ws(s, i);
    if j < s.len() {
        if let Ok(t) = token_at(s, j) {
            lemma_token_at_size(s, j);
            lemma_tokenize_covers(s, j + spec_size(t));
            if let Ok(rest) = spec_tokenize_from(s, j + spec_size(t)) {
                let ft = FileToken {
                    line: line_of(s, j) as usize,
                    column: col_of(s, j) as usize,
                    token: t,
                };
                assert((seq![ft] + rest).drop_first() =~= rest);
            }
        }
    }
}

/// Total consumption: the consumed-lengths of the tokens plus the skipped
/// whitespace add up exactly to the length of the covered input.
pub proof fn lemma_total_consumption(s: Seq<u8>, i: int, ts: Seq<FileToken>)
    requires
        0 <= i <= s.len(),
        s.len() < usize::MAX,
        covers(s, i, ts),
    ensures
        total_size(ts) + total_gaps(s, i, ts) == s.len() - i,
    decreases ts.len(),
{
    lemma_skip_ws(s, i);
    let j = skip_ws(s, i);
    if ts.len() == 1 {
        assert(total_size(ts.drop_first()) == 0);
    } else {
        lemma_token_at_size(s, j);
        lemma_total_consumption(s, j + spec_size(ts[0].token), ts.drop_first());
    }
}

/// A successful scan always ends in exactly one `EndOfFile` token: the
/// last element is `EndOfFile` and no earlier element is.
pub proof fn lemma_single_eof(s: Seq<u8>, i: int)
    requires
        0 <= i,
        s.len() < usize::MAX,
    ensures
        spec_tokenize_from(s, i) matches Ok(ts) ==> {
            &&& ts.len() >= 1
            &&& ts[ts.len() - 1].token == Token::EndOfFile
            &&& forall|k: int| 0 <= k < ts.len() - 1 ==> (#[trigger] ts[k].token) != Token::EndOfFile
        },
    decreases s.len() - i,
{
    lemma_skip_ws(s, i);
    let j = skip_ws(s, i);
    if j < s.len() {
        if let Ok(t) = token_at(s, j) {
            lemma_token_at_size(s, j);
            lemma_single_eof(s, j + spec_size(t));
            if let Ok(rest) = spec_tokenize_from(s, j + spec_size(t)) {
                let ft = FileToken {
                    line: line_of(s, j) as usize,
                    column: col_of(s, j) as usize,
                    token: t,
                };
                let ts = seq![ft] + rest;
                assert(spec_size(t) >= 1);
                assert(t != Token::EndOfFile);
                assert(ts[ts.len() - 1] == rest[rest.len() - 1]);
                assert forall|k: int| 0 <= k < ts.len() - 1 implies (#[trigger] ts[k].token)
                    != Token::EndOfFile by {
                    if k > 0 {
                        assert(ts[k] == rest[k - 1]);
                    }
                }
            }
        }
    }
}

/// Position `(line_of, col_of)` grows strictly, in lexicographic order,
/// with the byte offset.
pub proof fn lemma_pos_strict(s: Seq<u8>, a: int, b: int)
    requires
        0 <= a < b,
    ensures
        line_of(s, a) <= line_of(s, b),
        line_of(s, a) == line_of(s, b) ==> col_of(s, a) < col_of(s, b),
    decreases b - a,
{
    if a + 1 < b {
        lemma_pos_strict(s, a, b - 1);
        lemma_pos_strict(s, b - 1, b);
    }
}

/// The token positions are strictly increasing in source order: each
/// token stands on a later line than the one before it, or further right
/// on the same line. In particular `EndOfFile` stands one position past
/// the last consumed character.
pub proof fn lemma_positions_monotonic(s: Seq<u8>, i: int)
    requires
        0 <= i,
        s.len() < usize::MAX,
    ensures
        spec_tokenize_from(s, i) matches Ok(ts) ==> forall|k: int|
            0 <= k < ts.len() - 1 ==> ((#[trigger] ts[k]).line < ts[k + 1].line || (ts[k].line
                == ts[k + 1].line && ts[k].column < ts[k + 1].column)),
    decreases s.len() - i,
{
    lemma_skip_ws(s, i);
    let j = skip_ws(s, i);
    if j < s.len() {
        if let Ok(t) = token_at(s, j) {
            lemma_token_at_size(s, j);
            lemma_positions_monotonic(s, j + spec_size(t));
            if let Ok(rest) = spec_tokenize_from(s, j + spec_size(t)) {
                let ft = FileToken {
                    line: line_of(s, j) as usize,
                    column: col_of(s, j) as usize,
                    token: t,
                };
                let ts = seq![ft] + rest;
                let j2 = skip_ws(s, j + spec_size(t));
                lemma_skip_ws(s, j + spec_size(t));
                lemma_pos_bounds(s, j);
                lemma_pos_bounds(s, j2);
                lemma_pos_strict(s, j, j2);
                assert(rest[0].line == line_of(s, j2) as usize && rest[0].column == col_of(
                    s,
                    j2,
                ) as usize);
                assert forall|k: int| 0 <= k < ts.len() - 1 implies (#[trigger] ts[k]).line < ts[k
                    + 1].line || (ts[k].line == ts[k + 1].line && ts[k].column < ts[k + 1].column) by {
                    if k == 0 {
                        assert(ts[0] == ft && ts[1] == rest[0]);
                    } else {
                        assert(ts[k] == rest[k - 1] && ts[k + 1] == rest[k]);
                    }
                }
            }
        }
    }
}

/// Round-trip span integrity of one token: the span, sliced from the
/// original buffer, reproduces exactly the text that was scanned.
///
/// For an `Identifier` the span is non-empty, lies inside the buffer,
/// holds no whitespace, no quote and no start of a keyword, and ends at a
/// token boundary, so it delimits the full identifier run. For a
/// `StringLiteral` the span is enclosed in the two quotes of the literal
/// and holds no raw newline and no unescaped quote, so it delimits the
/// full literal content.
pub open spec fn token_span_ok(s: Seq<u8>, t: Token) -> bool {
    match t {
        Token::Identifier(sp) => {
            &&& 0 <= sp.start < sp.end <= s.len()
            &&& forall|k: int|
                sp.start <= k < sp.end ==> !is_ws(#[trigger] s[k]) && s[k] != B_QUOTE && keyword_at(
                    s,
                    k,
                ) is None
            &&& boundary_at(s, sp.end as int) || keyword_at(s, sp.end as int) is Some
        },
        Token::StringLiteral(sp) => {
            &&& 1 <= sp.start <= sp.end < s.len()
            &&& s[sp.start - 1] == B_QUOTE
            &&& s[sp.end as int] == B_QUOTE
            &&& s[sp.end - 1] != B_BACKSLASH
            &&& forall|k: int|
                sp.start <= k < sp.end ==> (#[trigger] s[k]) != B_NEWLINE && !(s[k] == B_QUOTE && s[k
                    - 1] != B_BACKSLASH)
        },
        _ => true,
    }
}

/// Round-trip span integrity: in a token list that covers `s`, every
/// `Identifier` and `StringLiteral` span delimits exactly the text that
/// the scanner consumed for it.
pub proof fn lemma_span_integrity(s: Seq<u8>, i: int, ts: Seq<FileToken>)
    requires
        0 <= i,
        s.len() < usize::MAX,
        covers(s, i, ts),
    ensures
        forall|k: int| 0 <= k < ts.len() ==> token_span_ok(s, (#[trigger] ts[k]).token),
    decreases ts.len(),
{
    lemma_skip_ws(s, i);
    let j = skip_ws(s, i);
    if ts.len() > 1 {
        let t = ts[0].token;
        lemma_token_at_size(s, j);
        if keyword_at(s, j) is Some {
        } else if s[j] == B_QUOTE {
            lemma_lit_close(s, j + 1);
        } else {
            lemma_ident_end(s, j + 1);
        }
        lemma_span_integrity(s, j + spec_size(t), ts.drop_first());
        assert forall|k: int| 0 <= k < ts.len() implies token_span_ok(
            s,
            (#[trigger] ts[k]).token,
        ) by {
            if k > 0 {
                assert(ts[k] == ts.drop_first()[k - 1]);
            }
        }
    }
}

/// Exec mirror of [`punct_at`].
fn punct(s: &[u8], i: usize) -> (r: Option<Token>)
    requires
        i <= s@.len(),
    ensures
        r == punct_at(s@, i as int),
{
    if s.len() - i >= 2 && s[i] == B_DASH && s[i + 1] == B_GREATER {
        Some(Token::ThinArrow)
    } else if s.len() - i >= 2 && s[i] == B_COLON && s[i + 1] == B_COLON {
        Some(Token::DoubleColon)
    } else if i < s.len() && s[i] == B_LPAREN {
        Some(Token::LeftParen)
    } else if i < s.len() && s[i] == B_RPAREN {
        Some(Token::RightParen)
    } else if i < s.len() && s[i] == B_LBRACKET {
        Some(Token::LeftBracket)
    } else if i < s.len() && s[i] == B_RBRACKET {
        Some(Token::RightBracket)
    } else if i < s.len() && s[i] == B_LCURLY {
        Some(Token::LeftCurlyBrace)
    } else if i < s.len() && s[i] == B_RCURLY {
        Some(Token::RightCurlyBrace)
    } else if i < s.len() && s[i] == B_SEMI {
        Some(Token::SemiColon)
    } else if i < s.len() && s[i] == B_COMMA {
        Some(Token::Comma)
    } else {
        None
    }
}

/// Exec mirror of [`boundary_at`].
fn boundary(s: &[u8], i: usize) -> (r: bool)
    requires
        i <= s@.len(),
    ensures
        r == boundary_at(s@, i as int),
{
    if i == s.len() {
        return true;
    }
    let b = s[i];
    if b == B_SPACE || b == B_NEWLINE || b == B_QUOTE {
        return true;
    }
    punct(s, i).is_some()
}

impl Token {
    /// How many source bytes this token consumed.
    pub fn size(&self) -> (r: usize)
        requires
            token_wf(*self, usize::MAX as int),
            spec_size(*self) <= usize::MAX,
        ensures
            r == spec_size(*self),
    {
        match *self {
            Token::Import => 6,
            Token::Fn => 2,
            Token::LeftParen => 1,
            Token::RightParen => 1,
            Token::LeftBracket => 1,
            Token::RightBracket => 1,
            Token::LeftCurlyBrace => 1,
            Token::RightCurlyBrace => 1,
            Token::ThinArrow => 2,
            Token::DoubleColon => 2,
            Token::SemiColon => 1,
            Token::Comma => 1,
            Token::EndOfFile => 0,
            Token::StringLiteral(sp) => sp.end - sp.start + 2,
            Token::Identifier(sp) => sp.end - sp.start,
        }
    }

    /// Tries to recognize a keyword or punctuation token at offset `i`.
    fn try_get_keyword(s: &[u8], i: usize) -> (r: Option<Token>)
        requires
            i <= s@.len(),
        ensures
            r == keyword_at(s@, i as int),
    {
        if s.len() - i >= 6 && s[i] == B_I && s[i + 1] == B_M && s[i + 2] == B_P && s[i + 3] == B_O
            && s[i + 4] == B_R && s[i + 5] == B_T && boundary(s, i + 6) {
            return Some(Token::Import);
        }
        if s.len() - i >= 2 && s[i] == B_F && s[i + 1] == B_N && boundary(s, i + 2) {
            return Some(Token::Fn);
        }
        punct(s, i)
    }

    /// Tries to scan a string literal whose opening quote stands at offset
    /// `i`: `None` when no quote stands there, the token up to the first
    /// unescaped closing quote, or `UnclosedDelimiter` when end of input
    /// or a raw newline comes first.
    fn try_parse_string_literal(s: &[u8], i: usize) -> (r: Option<
        Result<Token, TokenizationError>,
    >)
        requires
            i < s@.len(),
        ensures
            s@[i as int] != B_QUOTE ==> r is None,
            s@[i as int] == B_QUOTE && lit_close(s@, i + 1) is Some ==> r == Some(
                Ok::<Token, TokenizationError>(
                    Token::StringLiteral(
                        (Span { start: (i + 1) as usize, end: lit_close(s@, i + 1)->Some_0 as usize }),
                    ),
                ),
            ),
            s@[i as int] == B_QUOTE && lit_close(s@, i + 1) is None ==> r == Some(
                Err::<Token, TokenizationError>(TokenizationError::UnclosedDelimiter),
            ),
    {
        if s[i] != B_QUOTE {
            return None;
        }
        let mut j: usize = i + 1;
        loop
            invariant
                i + 1 <= j <= s@.len(),
                s@[i as int] == B_QUOTE,
                lit_close(s@, i + 1) == lit_close(s@, j as int),
            decreases s@.len() - j,
        {
            if j == s.len() {
                return Some(Err(TokenizationError::UnclosedDelimiter));
            }
            let b = s[j];
            if b == B_QUOTE && s[j - 1] != B_BACKSLASH {
                return Some(Ok(Token::StringLiteral(Span { start: i + 1, end: j })));
            }
            if b == B_NEWLINE {
                return Some(Err(TokenizationError::UnclosedDelimiter));
            }
            j += 1;
        }
    }

    /// Recognizes the one token that starts at offset `i`, which must not
    /// point at whitespace: `EndOfFile` at the end of the input, otherwise
    /// a keyword, a string literal or an identifier run.
    fn find(s: &[u8], i: usize) -> (r: Result<Token, TokenizationError>)
        requires
            i <= s@.len(),
            i < s@.len() ==> !is_ws(s@[i as int]),
        ensures
            r == token_at(s@, i as int),
    {
        if i == s.len() {
            return Ok(Token::EndOfFile);
        }
        if let Some(t) = Self::try_get_keyword(s, i) {
            return Ok(t);
        }
        if let Some(res) = Self::try_parse_string_literal(s, i) {
            return res;
        }
        let mut j: usize = i + 1;
        while j < s.len() && !ident_break(s, j)
            invariant
                i + 1 <= j <= s@.len(),
                ident_end(s@, i + 1) == ident_end(s@, j as int),
            decreases s@.len() - j,
        {
            j += 1;
        }
        Ok(Token::Identifier(Span { start: i, end: j }))
    }

    /// Tokenizes a whole source buffer: every token in source order,
    /// terminated by exactly one `EndOfFile`, each annotated with the
    /// 1-based line and column of its first character — or, on the first
    /// lexical fault, the error with the position of the offending byte
    /// and no partial token list.
    ///
    /// The result is exactly the scan that [`spec_tokenize_from`]
    /// describes, starting at offset 0. The buffer must be shorter than
    /// `usize::MAX` bytes so that the 1-based positions fit in `usize`.
    #[verifier::loop_isolation(false)]
    pub fn parse(raw_string: &[u8]) -> (r: Result<Vec<FileToken>, FileTokenizationError>)
        requires
            raw_string@.len() < usize::MAX,
        ensures
            r matches Ok(ts) ==> spec_tokenize_from(raw_string@, 0) == Ok::<
                Seq<FileToken>,
                FileTokenizationError,
            >(ts@),
            r matches Err(e) ==> spec_tokenize_from(raw_string@, 0) == Err::<
                Seq<FileToken>,
                FileTokenizationError,
            >(e),
    {
        let s = raw_string;
        let mut output: Vec<FileToken> = Vec::new();
        let mut i: usize = 0;
        let mut line: usize = 1;
        let mut column: usize = 1;
        loop
            invariant
                i <= s@.len(),
                line == line_of(s@, i as int),
                column == col_of(s@, i as int),
                spec_tokenize_from(s@, i as int) matches Ok(rest) ==> spec_tokenize_from(s@, 0)
                    == Ok::<Seq<FileToken>, FileTokenizationError>(output@ + rest),
                spec_tokenize_from(s@, i as int) matches Err(e) ==> spec_tokenize_from(s@, 0)
                    == Err::<Seq<FileToken>, FileTokenizationError>(e),
            decreases s@.len() - i,
        {
            let ghost i_entry = i as int;
            while i < s.len() && (s[i] == B_SPACE || s[i] == B_NEWLINE)
                invariant
                    i_entry <= i <= s@.len(),
                    line == line_of(s@, i as int),
                    column == col_of(s@, i as int),
                    skip_ws(s@, i_entry) == skip_ws(s@, i as int),
                    spec_tokenize_from(s@, i_entry) == spec_tokenize_from(s@, i as int),
                decreases s@.len() - i,
            {
                proof {
                    lemma_pos_bounds(s@, i as int);
                    assert(skip_ws(s@, i as int) == skip_ws(s@, i + 1));
                    assert(spec_tokenize_from(s@, i as int) == spec_tokenize_from(s@, i + 1));
                }
                if s[i] == B_NEWLINE {
                    line = line + 1;
                    column = 1;
                } else {
                    column = column + 1;
                }
                i = i + 1;
            }
            proof {
                assert(skip_ws(s@, i as int) == i as int);
                lemma_pos_bounds(s@, i as int);
            }
            if i == s.len() {
                let ghost out0 = output@;
                let ghost eof_ft = (FileToken {
                    line: line_of(s@, i as int) as usize,
                    column: col_of(s@, i as int) as usize,
                    token: Token::EndOfFile,
                });
                output.push(FileToken { line, column, token: Token::EndOfFile });
                proof {
                    assert(spec_tokenize_from(s@, i as int) == Ok::<
                        Seq<FileToken>,
                        FileTokenizationError,
                    >(seq![eof_ft]));
                    assert(output@ =~= out0 + seq![eof_ft]);
                }
                return Ok(output);
            }
            match Token::find(s, i) {
                Err(e) => {
                    return Err(FileTokenizationError { line, column, error: e });
                },
                Ok(t) => {
                    let ghost out0 = output@;
                    let ghost ii = i as int;
                    proof {
                        lemma_token_at_size(s@, ii);
                    }
                    output.push(FileToken { line, column, token: t });
                    let sz = t.size();
                    let stop = i + sz;
                    proof {
                        let ft = FileToken {
                            line: line_of(s@, ii) as usize,
                            column: col_of(s@, ii) as usize,
                            token: t,
                        };
                        assert(output@ =~= out0 + seq![ft]);
                        match spec_tokenize_from(s@, stop as int) {
                            Ok(rest) => {
                                assert(spec_tokenize_from(s@, ii) == Ok::<
                                    Seq<FileToken>,
                                    FileTokenizationError,
                                >(seq![ft] + rest));
                                assert(out0 + (seq![ft] + rest) =~= output@ + rest);
                            },
                            Err(e) => {
                                assert(spec_tokenize_from(s@, ii) == Err::<
                                    Seq<FileToken>,
                                    FileTokenizationError,
                                >(e));
                            },
                        }
                    }
                    while i < stop
                        invariant
                            i <= stop <= s@.len(),
                            line == line_of(s@, i as int),
                            column == col_of(s@, i as int),
                            spec_tokenize_from(s@, stop as int) matches Ok(rest)
                                ==> spec_tokenize_from(s@, 0) == Ok::<
                                Seq<FileToken>,
                                FileTokenizationError,
                            >(output@ + rest),
                            spec_tokenize_from(s@, stop as int) matches Err(e)
                                ==> spec_tokenize_from(s@, 0) == Err::<
                                Seq<FileToken>,
                                FileTokenizationError,
                            >(e),
                        decreases stop - i,
                    {
                        proof {
                            lemma_pos_bounds(s@, i as int);
                        }
                        if s[i] == B_NEWLINE {
                            line = line + 1;
                            column = 1;
                        } else {
                            column = column + 1;
                        }
                        i = i + 1;
                    }
                },
            }
        }
    }
}

/// Exec check for the byte that ends an identifier run: whitespace, a
/// quote, or the start of a keyword or punctuation token.
fn ident_break(s: &[u8], j: usize) -> (r: bool)
    requires
        j < s@.len(),
    ensures
        r == (is_ws(s@[j as int]) || s@[j as int] == B_QUOTE || keyword_at(s@, j as int) is Some),
{
    let b = s[j];
    if b == B_SPACE || b == B_NEWLINE || b == B_QUOTE {
        return true;
    }
    Token::try_get_keyword(s, j).is_some()
}

} // verus!
