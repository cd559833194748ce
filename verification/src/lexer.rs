//! Tokenization of assembly source text.
//!
//! [`lex`] turns a source string into the token sequence that the parser
//! consumes.  Its result is pinned down by the specification-level lexer
//! [`spec_lex`]: a recursive function over the source characters that
//! produces exactly the tokens, with their spans, or the first lexical
//! error.

use vstd::prelude::*;

use crate::error::BitBoxError;

verus! {

/// Source region of a token: row, column and character offsets.
///
/// `row` counts lines from 0, `col` counts characters from the start of the
/// row, and the `byte` fields count characters from the start of the source
/// text (for ASCII source the two coincide with byte offsets).
#[derive(Debug, Clone, Copy, PartialEq, Eq, Structural)]
pub struct Span {
    pub row_start: usize,
    pub row_end: usize,
    pub col_start: usize,
    pub col_end: usize,
    pub byte_start: usize,
    pub byte_end: usize,
}

impl Span {
    /// The span that covers `start` through `end`.
    pub fn merge(start: Span, end: Span) -> (r: Span)
        ensures
            r == (Span {
                row_start: start.row_start,
                row_end: end.row_end,
                col_start: start.col_start,
                col_end: end.col_end,
                byte_start: start.byte_start,
                byte_end: end.byte_end,
            }),
    {
        Span {
            row_start: start.row_start,
            row_end: end.row_end,
            col_start: start.col_start,
            col_end: end.col_end,
            byte_start: start.byte_start,
            byte_end: end.byte_end,
        }
    }

    /// The zero span, used where no source position applies.
    pub open spec fn spec_zero() -> Span {
        Span {
            row_start: 0,
            row_end: 0,
            col_start: 0,
            col_end: 0,
            byte_start: 0,
            byte_end: 0,
        }
    }

    /// The zero span, used where no source position applies.
    pub fn zero() -> (r: Span)
        ensures
            r == Span::spec_zero(),
    {
        Span {
            row_start: 0,
            row_end: 0,
            col_start: 0,
            col_end: 0,
            byte_start: 0,
            byte_end: 0,
        }
    }
}

impl Default for Span {
    fn default() -> (r: Self)
        ensures
            r == Span::spec_zero(),
    {
        Span::zero()
    }
}

/// What a token is: an opcode keyword, a literal, an identifier,
/// punctuation, or a line delimiter.
#[derive(Debug)]
pub enum TokenKind {
    KeywordLoad,
    KeywordStore,
    KeywordCopy,
    KeywordAloc,
    KeywordPush,
    KeywordPop,
    KeywordAdd,
    KeywordSub,
    KeywordDiv,
    KeywordMul,
    KeywordEq,
    KeywordJne,
    KeywordInc,
    KeywordHult,
    KeywordPrintReg,
    KeywordCall,
    KeywordAnd,
    KeywordOr,
    KeywordShr,
    KeywordReturn,
    KeywordSyscall,
    Number(u64),
    Identifier(String),
    Colon,
    Comma,
    Period,
    LeftParen,
    RightParen,
    LeftBrace,
    RightBrace,
    LeftBracket,
    RightBracket,
    PercentSign,
    Ampersand,
    Equal,
    Delimiter,
}

/// Specification-level token kind; identifiers are character sequences.
pub enum TokenKindModel {
    KeywordLoad,
    KeywordStore,
    KeywordCopy,
    KeywordAloc,
    KeywordPush,
    KeywordPop,
    KeywordAdd,
    KeywordSub,
    KeywordDiv,
    KeywordMul,
    KeywordEq,
    KeywordJne,
    KeywordInc,
    KeywordHult,
    KeywordPrintReg,
    KeywordCall,
    KeywordAnd,
    KeywordOr,
    KeywordShr,
    KeywordReturn,
    KeywordSyscall,
    Number(u64),
    Identifier(Seq<char>),
    Colon,
    Comma,
    Period,
    LeftParen,
    RightParen,
    LeftBrace,
    RightBrace,
    LeftBracket,
    RightBracket,
    PercentSign,
    Ampersand,
    Equal,
    Delimiter,
}

impl View for TokenKind {
    type V = TokenKindModel;

    open spec fn view(&self) -> TokenKindModel {
        match self {
            TokenKind::KeywordLoad => TokenKindModel::KeywordLoad,
            TokenKind::KeywordStore => TokenKindModel::KeywordStore,
            TokenKind::KeywordCopy => TokenKindModel::KeywordCopy,
            TokenKind::KeywordAloc => TokenKindModel::KeywordAloc,
            TokenKind::KeywordPush => TokenKindModel::KeywordPush,
            TokenKind::KeywordPop => TokenKindModel::KeywordPop,
            TokenKind::KeywordAdd => TokenKindModel::KeywordAdd,
            TokenKind::KeywordSub => TokenKindModel::KeywordSub,
            TokenKind::KeywordDiv => TokenKindModel::KeywordDiv,
            TokenKind::KeywordMul => TokenKindModel::KeywordMul,
            TokenKind::KeywordEq => TokenKindModel::KeywordEq,
            TokenKind::KeywordJne => TokenKindModel::KeywordJne,
            TokenKind::KeywordInc => TokenKindModel::KeywordInc,
            TokenKind::KeywordHult => TokenKindModel::KeywordHult,
            TokenKind::KeywordPrintReg => TokenKindModel::KeywordPrintReg,
            TokenKind::KeywordCall => TokenKindModel::KeywordCall,
            TokenKind::KeywordAnd => TokenKindModel::KeywordAnd,
            TokenKind::KeywordOr => TokenKindModel::KeywordOr,
            TokenKind::KeywordShr => TokenKindModel::KeywordShr,
            TokenKind::KeywordReturn => TokenKindModel::KeywordReturn,
            TokenKind::KeywordSyscall => TokenKindModel::KeywordSyscall,
            TokenKind::Number(n) => TokenKindModel::Number(*n),
            TokenKind::Identifier(s) => TokenKindModel::Identifier(s@),
            TokenKind::Colon => TokenKindModel::Colon,
            TokenKind::Comma => TokenKindModel::Comma,
            TokenKind::Period => TokenKindModel::Period,
            TokenKind::LeftParen => TokenKindModel::LeftParen,
            TokenKind::RightParen => TokenKindModel::RightParen,
            TokenKind::LeftBrace => TokenKindModel::LeftBrace,
            TokenKind::RightBrace => TokenKindModel::RightBrace,
            TokenKind::LeftBracket => TokenKindModel::LeftBracket,
            TokenKind::RightBracket => TokenKindModel::RightBracket,
            TokenKind::PercentSign => TokenKindModel::PercentSign,
            TokenKind::Ampersand => TokenKindModel::Ampersand,
            TokenKind::Equal => TokenKindModel::Equal,
            TokenKind::Delimiter => TokenKindModel::Delimiter,
        }
    }
}

/// A token: its kind together with its source span.
#[derive(Debug)]
pub struct Token {
    pub kind: TokenKind,
    pub span: Span,
}

impl Clone for TokenKind {
    /// A copy that denotes the same token kind.
    fn clone(&self) -> (r: Self)
        ensures
            r@ == self@,
    {
        match self {
            TokenKind::KeywordLoad => TokenKind::KeywordLoad,
            TokenKind::KeywordStore => TokenKind::KeywordStore,
            TokenKind::KeywordCopy => TokenKind::KeywordCopy,
            TokenKind::KeywordAloc => TokenKind::KeywordAloc,
            TokenKind::KeywordPush => TokenKind::KeywordPush,
            TokenKind::KeywordPop => TokenKind::KeywordPop,
            TokenKind::KeywordAdd => TokenKind::KeywordAdd,
            TokenKind::KeywordSub => TokenKind::KeywordSub,
            TokenKind::KeywordDiv => TokenKind::KeywordDiv,
            TokenKind::KeywordMul => TokenKind::KeywordMul,
            TokenKind::KeywordEq => TokenKind::KeywordEq,
            TokenKind::KeywordJne => TokenKind::KeywordJne,
            TokenKind::KeywordInc => TokenKind::KeywordInc,
            TokenKind::KeywordHult => TokenKind::KeywordHult,
            TokenKind::KeywordPrintReg => TokenKind::KeywordPrintReg,
            TokenKind::KeywordCall => TokenKind::KeywordCall,
            TokenKind::KeywordAnd => TokenKind::KeywordAnd,
            TokenKind::KeywordOr => TokenKind::KeywordOr,
            TokenKind::KeywordShr => TokenKind::KeywordShr,
            TokenKind::KeywordReturn => TokenKind::KeywordReturn,
            TokenKind::KeywordSyscall => TokenKind::KeywordSyscall,
            TokenKind::Number(n) => TokenKind::Number(*n),
            TokenKind::Identifier(s) => TokenKind::Identifier(s.clone()),
            TokenKind::Colon => TokenKind::Colon,
            TokenKind::Comma => TokenKind::Comma,
            TokenKind::Period => TokenKind::Period,
            TokenKind::LeftParen => TokenKind::LeftParen,
            TokenKind::RightParen => TokenKind::RightParen,
            TokenKind::LeftBrace => TokenKind::LeftBrace,
            TokenKind::RightBrace => TokenKind::RightBrace,
            TokenKind::LeftBracket => TokenKind::LeftBracket,
            TokenKind::RightBracket => TokenKind::RightBracket,
            TokenKind::PercentSign => TokenKind::PercentSign,
            TokenKind::Ampersand => TokenKind::Ampersand,
            TokenKind::Equal => TokenKind::Equal,
            TokenKind::Delimiter => TokenKind::Delimiter,
        }
    }
}

impl Clone for Token {
    /// A copy that denotes the same token.
    fn clone(&self) -> (r: Self)
        ensures
            r@ == self@,
    {
        Token { kind: self.kind.clone(), span: self.span }
    }
}

/// Specification-level token.
pub struct TokenModel {
    pub kind: TokenKindModel,
    pub span: Span,
}

impl View for Token {
    type V = TokenModel;

    open spec fn view(&self) -> TokenModel {
        TokenModel { kind: self.kind@, span: self.span }
    }
}

/// The views of a token sequence, element by element.
pub open spec fn token_views(ts: Seq<Token>) -> Seq<TokenModel> {
    ts.map_values(|t: Token| t@)
}

/// The number of line breaks a reader has passed when standing just after
/// position `p - 1`: newlines strictly before the previous character.  (A
/// token consumed right after a newline keeps the old row as its start and
/// the new row as its end.)
pub open spec fn row_of(s: Seq<char>, p: int) -> nat
    decreases p,
{
    if p <= 1 {
        0
    } else {
        row_of(s, p - 1) + (if s[p - 2] == '\n' {
            1nat
        } else {
            0nat
        })
    }
}

/// The position where the line holding position `p` begins: one past the
/// last newline before `p`, or the start of the text.
pub open spec fn line_start(s: Seq<char>, p: int) -> int
    decreases p,
{
    if p <= 0 {
        0
    } else if s[p - 1] == '\n' {
        p
    } else {
        line_start(s, p - 1)
    }
}

/// The span a token covering characters `a .. b` claims.
pub open spec fn token_span(s: Seq<char>, a: int, b: int) -> Span {
    Span {
        row_start: row_of(s, a) as usize,
        row_end: row_of(s, b) as usize,
        col_start: (a - line_start(s, a)) as usize,
        col_end: (b - line_start(s, a)) as usize,
        byte_start: a as usize,
        byte_end: b as usize,
    }
}

/// Passing characters none of which is a newline moves the row count at
/// most over the one pending line break, and not the line start.
pub proof fn lemma_pos_run(s: Seq<char>, a: int, b: int)
    requires
        0 <= a <= b <= s.len(),
        forall|j: int| a <= j < b - 1 ==> s[j] != '\n',
    ensures
        a < b ==> row_of(s, b) == row_of(s, a) + (if a >= 1 && s[a - 1] == '\n' {
            1nat
        } else {
            0nat
        }),
        a < b && s[b - 1] != '\n' ==> line_start(s, b) == line_start(s, a),
    decreases b - a,
{
    if a < b {
        if b - 1 > a {
            lemma_pos_run(s, a, b - 1);
        }
    }
}

/// A character is a decimal digit.
pub open spec fn is_digit_char(c: char) -> bool {
    48 <= c as u32 <= 57
}

/// A character may start an identifier: a letter or an underscore.
pub open spec fn is_ident_start_char(c: char) -> bool {
    (65 <= c as u32 <= 90) || (97 <= c as u32 <= 122) || c == '_'
}

/// A character may continue an identifier.
pub open spec fn is_ident_char(c: char) -> bool {
    is_ident_start_char(c) || is_digit_char(c)
}

/// A character is a hexadecimal digit.
pub open spec fn is_hex_digit_char(c: char) -> bool {
    is_digit_char(c) || (97 <= c as u32 <= 102) || (65 <= c as u32 <= 70)
}

/// A character may appear in a hexadecimal literal: a digit or the
/// ignored `_` separator.
pub open spec fn is_hex_run_char(c: char) -> bool {
    is_hex_digit_char(c) || c == '_'
}

/// A character may appear in a binary literal.
pub open spec fn is_bin_run_char(c: char) -> bool {
    c == '0' || c == '1' || c == '_'
}

/// A character continues a comment: anything up to the line break.
pub open spec fn is_comment_char(c: char) -> bool {
    c != '\n'
}

/// The first position at or after `i` past a run of decimal digits.
pub open spec fn scan_dec_end(s: Seq<char>, i: int) -> int
    decreases s.len() - i,
{
    if 0 <= i < s.len() && is_digit_char(s[i]) {
        scan_dec_end(s, i + 1)
    } else {
        i
    }
}

/// The run ends within the text, every character in it passes, and the
/// character after it, if any, fails.
pub proof fn lemma_scan_dec_end(s: Seq<char>, i: int)
    requires
        0 <= i <= s.len(),
    ensures
        i <= scan_dec_end(s, i) <= s.len(),
        forall|j: int| i <= j < scan_dec_end(s, i) ==> is_digit_char(s[j]),
        scan_dec_end(s, i) == s.len() || !is_digit_char(s[scan_dec_end(s, i)]),
    decreases s.len() - i,
{
    if i < s.len() && is_digit_char(s[i]) {
        lemma_scan_dec_end(s, i + 1);
    }
}

/// The first position at or after `i` past a run of identifier characters.
pub open spec fn scan_ident_end(s: Seq<char>, i: int) -> int
    decreases s.len() - i,
{
    if 0 <= i < s.len() && is_ident_char(s[i]) {
        scan_ident_end(s, i + 1)
    } else {
        i
    }
}

/// The run ends within the text, every character in it passes, and the
/// character after it, if any, fails.
pub proof fn lemma_scan_ident_end(s: Seq<char>, i: int)
    requires
        0 <= i <= s.len(),
    ensures
        i <= scan_ident_end(s, i) <= s.len(),
        forall|j: int| i <= j < scan_ident_end(s, i) ==> is_ident_char(s[j]),
        scan_ident_end(s, i) == s.len() || !is_ident_char(s[scan_ident_end(s, i)]),
    decreases s.len() - i,
{
    if i < s.len() && is_ident_char(s[i]) {
        lemma_scan_ident_end(s, i + 1);
    }
}

/// The first position at or after `i` past a run of hexadecimal digits and separators.
pub open spec fn scan_hex_end(s: Seq<char>, i: int) -> int
    decreases s.len() - i,
{
    if 0 <= i < s.len() && is_hex_run_char(s[i]) {
        scan_hex_end(s, i + 1)
    } else {
        i
    }
}

/// The run ends within the text, every character in it passes, and the
/// character after it, if any, fails.
pub proof fn lemma_scan_hex_end(s: Seq<char>, i: int)
    requires
        0 <= i <= s.len(),
    ensures
        i <= scan_hex_end(s, i) <= s.len(),
        forall|j: int| i <= j < scan_hex_end(s, i) ==> is_hex_run_char(s[j]),
        scan_hex_end(s, i) == s.len() || !is_hex_run_char(s[scan_hex_end(s, i)]),
    decreases s.len() - i,
{
    if i < s.len() && is_hex_run_char(s[i]) {
        lemma_scan_hex_end(s, i + 1);
    }
}

/// The first position at or after `i` past a run of binary digits and separators.
pub open spec fn scan_bin_end(s: Seq<char>, i: int) -> int
    decreases s.len() - i,
{
    if 0 <= i < s.len() && is_bin_run_char(s[i]) {
        scan_bin_end(s, i + 1)
    } else {
        i
    }
}

/// The run ends within the text, every character in it passes, and the
/// character after it, if any, fails.
pub proof fn lemma_scan_bin_end(s: Seq<char>, i: int)
    requires
        0 <= i <= s.len(),
    ensures
        i <= scan_bin_end(s, i) <= s.len(),
        forall|j: int| i <= j < scan_bin_end(s, i) ==> is_bin_run_char(s[j]),
        scan_bin_end(s, i) == s.len() || !is_bin_run_char(s[scan_bin_end(s, i)]),
    decreases s.len() - i,
{
    if i < s.len() && is_bin_run_char(s[i]) {
        lemma_scan_bin_end(s, i + 1);
    }
}

/// The first position at or after `i` past a run of comment characters.
pub open spec fn scan_comment_end(s: Seq<char>, i: int) -> int
    decreases s.len() - i,
{
    if 0 <= i < s.len() && is_comment_char(s[i]) {
        scan_comment_end(s, i + 1)
    } else {
        i
    }
}

/// The run ends within the text, every character in it passes, and the
/// character after it, if any, fails.
pub proof fn lemma_scan_comment_end(s: Seq<char>, i: int)
    requires
        0 <= i <= s.len(),
    ensures
        i <= scan_comment_end(s, i) <= s.len(),
        forall|j: int| i <= j < scan_comment_end(s, i) ==> is_comment_char(s[j]),
        scan_comment_end(s, i) == s.len() || !is_comment_char(s[scan_comment_end(s, i)]),
    decreases s.len() - i,
{
    if i < s.len() && is_comment_char(s[i]) {
        lemma_scan_comment_end(s, i + 1);
    }
}


/// The value of the decimal digits `a .. b`.
pub open spec fn dec_val(s: Seq<char>, a: int, b: int) -> nat
    decreases b - a,
{
    if b <= a {
        0
    } else {
        dec_val(s, a, b - 1) * 10 + (s[b - 1] as u32 - 48) as nat
    }
}

/// The value of one hexadecimal digit.
pub open spec fn hex_digit_val(c: char) -> nat {
    if is_digit_char(c) {
        (c as u32 - 48) as nat
    } else if 97 <= c as u32 <= 102 {
        (c as u32 - 87) as nat
    } else {
        (c as u32 - 55) as nat
    }
}

/// The value of the hexadecimal digits `a .. b`, `_` separators skipped.
pub open spec fn hex_val(s: Seq<char>, a: int, b: int) -> nat
    decreases b - a,
{
    if b <= a {
        0
    } else if s[b - 1] == '_' {
        hex_val(s, a, b - 1)
    } else {
        hex_val(s, a, b - 1) * 16 + hex_digit_val(s[b - 1])
    }
}

/// The value of the binary digits `a .. b`, `_` separators skipped.
pub open spec fn bin_val(s: Seq<char>, a: int, b: int) -> nat
    decreases b - a,
{
    if b <= a {
        0
    } else if s[b - 1] == '_' {
        bin_val(s, a, b - 1)
    } else {
        bin_val(s, a, b - 1) * 2 + (s[b - 1] as u32 - 48) as nat
    }
}

/// How many characters of `a .. b` are digits rather than separators.
pub open spec fn digit_count(s: Seq<char>, a: int, b: int) -> nat
    decreases b - a,
{
    if b <= a {
        0
    } else if s[b - 1] == '_' {
        digit_count(s, a, b - 1)
    } else {
        digit_count(s, a, b - 1) + 1
    }
}

/// The keyword a word of the language stands for, or the word itself as an
/// identifier.
pub open spec fn keyword_kind(name: Seq<char>) -> TokenKindModel {
    if name == "load"@ {
        TokenKindModel::KeywordLoad
    } else if name == "store"@ {
        TokenKindModel::KeywordStore
    } else if name == "copy"@ {
        TokenKindModel::KeywordCopy
    } else if name == "aloc"@ {
        TokenKindModel::KeywordAloc
    } else if name == "push"@ {
        TokenKindModel::KeywordPush
    } else if name == "pop"@ {
        TokenKindModel::KeywordPop
    } else if name == "add"@ {
        TokenKindModel::KeywordAdd
    } else if name == "sub"@ {
        TokenKindModel::KeywordSub
    } else if name == "div"@ {
        TokenKindModel::KeywordDiv
    } else if name == "mul"@ {
        TokenKindModel::KeywordMul
    } else if name == "inc"@ {
        TokenKindModel::KeywordInc
    } else if name == "eq"@ {
        TokenKindModel::KeywordEq
    } else if name == "jne"@ {
        TokenKindModel::KeywordJne
    } else if name == "hult"@ {
        TokenKindModel::KeywordHult
    } else if name == "printreg"@ {
        TokenKindModel::KeywordPrintReg
    } else if name == "call"@ {
        TokenKindModel::KeywordCall
    } else if name == "and"@ {
        TokenKindModel::KeywordAnd
    } else if name == "or"@ {
        TokenKindModel::KeywordOr
    } else if name == "shr"@ {
        TokenKindModel::KeywordShr
    } else if name == "return"@ {
        TokenKindModel::KeywordReturn
    } else if name == "syscall"@ {
        TokenKindModel::KeywordSyscall
    } else {
        TokenKindModel::Identifier(name)
    }
}

/// The tokens of the text from position `i` on, or the first lexical
/// error.  This is the lexer: [`lex`] returns exactly this for the whole
/// text.
pub open spec fn spec_lex_from(s: Seq<char>, i: int) -> Result<Seq<TokenModel>, BitBoxError>
    decreases s.len() - i,
    via spec_lex_from_dec
{
    if i < 0 || i >= s.len() {
        Ok(Seq::empty())
    } else {
        let c = s[i];
        if c == '0' && i + 1 < s.len() && s[i + 1] == 'x' {
            let j = scan_hex_end(s, i + 2);
            let sp = token_span(s, i, j);
            if digit_count(s, i + 2, j) == 0 || hex_val(s, i + 2, j) > u64::MAX {
                Err(BitBoxError::InvalidNumber(sp))
            } else {
                lex_cons(
                    TokenModel { kind: TokenKindModel::Number(hex_val(s, i + 2, j) as u64), span: sp },
                    spec_lex_from(s, j),
                )
            }
        } else if c == '0' && i + 1 < s.len() && s[i + 1] == 'b' {
            let j = scan_bin_end(s, i + 2);
            let sp = token_span(s, i, j);
            if digit_count(s, i + 2, j) == 0 || bin_val(s, i + 2, j) > u64::MAX {
                Err(BitBoxError::InvalidNumber(sp))
            } else {
                lex_cons(
                    TokenModel { kind: TokenKindModel::Number(bin_val(s, i + 2, j) as u64), span: sp },
                    spec_lex_from(s, j),
                )
            }
        } else if is_digit_char(c) {
            let j = scan_dec_end(s, i);
            let sp = token_span(s, i, j);
            if dec_val(s, i, j) > u64::MAX {
                Err(BitBoxError::InvalidNumber(sp))
            } else {
                lex_cons(
                    TokenModel { kind: TokenKindModel::Number(dec_val(s, i, j) as u64), span: sp },
                    spec_lex_from(s, j),
                )
            }
        } else if is_ident_start_char(c) {
            let j = scan_ident_end(s, i);
            lex_cons(
                TokenModel { kind: keyword_kind(s.subrange(i, j)), span: token_span(s, i, j) },
                spec_lex_from(s, j),
            )
        } else if c == ' ' || c == '\t' {
            spec_lex_from(s, i + 1)
        } else if c == ';' {
            spec_lex_from(s, scan_comment_end(s, i))
        } else {
            match punct_kind(c) {
                Some(kind) => lex_cons(
                    TokenModel { kind, span: token_span(s, i, i + 1) },
                    spec_lex_from(s, i + 1),
                ),
                None => Err(BitBoxError::UnexpectedCharacter(c, token_span(s, i, i + 1))),
            }
        }
    }
}

#[via_fn]
proof fn spec_lex_from_dec(s: Seq<char>, i: int) {
    if 0 <= i < s.len() {
        if i + 2 <= s.len() {
            lemma_scan_hex_end(s, i + 2);
            lemma_scan_bin_end(s, i + 2);
        }
        lemma_scan_dec_end(s, i);
        lemma_scan_ident_end(s, i);
        lemma_scan_comment_end(s, i);
    }
}

/// The token kind of a punctuation character, if it is one.
pub open spec fn punct_kind(c: char) -> Option<TokenKindModel> {
    if c == '\n' {
        Some(TokenKindModel::Delimiter)
    } else if c == '=' {
        Some(TokenKindModel::Equal)
    } else if c == '(' {
        Some(TokenKindModel::LeftParen)
    } else if c == ')' {
        Some(TokenKindModel::RightParen)
    } else if c == '{' {
        Some(TokenKindModel::LeftBrace)
    } else if c == '}' {
        Some(TokenKindModel::RightBrace)
    } else if c == '[' {
        Some(TokenKindModel::LeftBracket)
    } else if c == ']' {
        Some(TokenKindModel::RightBracket)
    } else if c == ',' {
        Some(TokenKindModel::Comma)
    } else if c == '.' {
        Some(TokenKindModel::Period)
    } else if c == ':' {
        Some(TokenKindModel::Colon)
    } else if c == '%' {
        Some(TokenKindModel::PercentSign)
    } else if c == '&' {
        Some(TokenKindModel::Ampersand)
    } else {
        None
    }
}

/// Prepends a token to a lexing result, keeping an error as it is.
pub open spec fn lex_cons(t: TokenModel, rest: Result<Seq<TokenModel>, BitBoxError>) -> Result<
    Seq<TokenModel>,
    BitBoxError,
> {
    match rest {
        Ok(ts) => Ok(seq![t] + ts),
        Err(e) => Err(e),
    }
}

/// The tokens of the whole text, or its first lexical error.
pub open spec fn spec_lex(s: Seq<char>) -> Result<Seq<TokenModel>, BitBoxError> {
    spec_lex_from(s, 0)
}

fn is_digit_c(c: char) -> (r: bool)
    ensures
        r == is_digit_char(c),
{
    let u = c as u32;
    48 <= u && u <= 57
}

fn is_ident_start_c(c: char) -> (r: bool)
    ensures
        r == is_ident_start_char(c),
{
    let u = c as u32;
    (65 <= u && u <= 90) || (97 <= u && u <= 122) || c == '_'
}

fn digit_at(src: &str, j: usize) -> (r: bool)
    requires
        j < src@.len(),
    ensures
        r == is_digit_char(src@[j as int]),
{
    is_digit_c(src.get_char(j))
}

fn ident_at(src: &str, j: usize) -> (r: bool)
    requires
        j < src@.len(),
    ensures
        r == is_ident_char(src@[j as int]),
{
    let c = src.get_char(j);
    is_ident_start_c(c) || is_digit_c(c)
}

fn hex_run_at(src: &str, j: usize) -> (r: bool)
    requires
        j < src@.len(),
    ensures
        r == is_hex_run_char(src@[j as int]),
{
    let c = src.get_char(j);
    let u = c as u32;
    is_digit_c(c) || (97 <= u && u <= 102) || (65 <= u && u <= 70) || c == '_'
}

fn bin_run_at(src: &str, j: usize) -> (r: bool)
    requires
        j < src@.len(),
    ensures
        r == is_bin_run_char(src@[j as int]),
{
    let c = src.get_char(j);
    c == '0' || c == '1' || c == '_'
}

fn comment_at(src: &str, j: usize) -> (r: bool)
    requires
        j < src@.len(),
    ensures
        r == is_comment_char(src@[j as int]),
{
    src.get_char(j) != '\n'
}

fn scan_digits(src: &str, from: usize, n: usize) -> (j: usize)
    requires
        n == src@.len(),
        from <= n,
    ensures
        from <= j <= n,
        j == scan_dec_end(src@, from as int),
{
    let mut j = from;
    while j < n && digit_at(src, j)
        invariant
            from <= j <= n,
            n == src@.len(),
            scan_dec_end(src@, from as int) == scan_dec_end(src@, j as int),
        decreases n - j,
    {
        j = j + 1;
    }
    j
}

fn scan_idents(src: &str, from: usize, n: usize) -> (j: usize)
    requires
        n == src@.len(),
        from <= n,
    ensures
        from <= j <= n,
        j == scan_ident_end(src@, from as int),
{
    let mut j = from;
    while j < n && ident_at(src, j)
        invariant
            from <= j <= n,
            n == src@.len(),
            scan_ident_end(src@, from as int) == scan_ident_end(src@, j as int),
        decreases n - j,
    {
        j = j + 1;
    }
    j
}

fn scan_hex(src: &str, from: usize, n: usize) -> (j: usize)
    requires
        n == src@.len(),
        from <= n,
    ensures
        from <= j <= n,
        j == scan_hex_end(src@, from as int),
{
    let mut j = from;
    while j < n && hex_run_at(src, j)
        invariant
            from <= j <= n,
            n == src@.len(),
            scan_hex_end(src@, from as int) == scan_hex_end(src@, j as int),
        decreases n - j,
    {
        j = j + 1;
    }
    j
}

fn scan_bin(src: &str, from: usize, n: usize) -> (j: usize)
    requires
        n == src@.len(),
        from <= n,
    ensures
        from <= j <= n,
        j == scan_bin_end(src@, from as int),
{
    let mut j = from;
    while j < n && bin_run_at(src, j)
        invariant
            from <= j <= n,
            n == src@.len(),
            scan_bin_end(src@, from as int) == scan_bin_end(src@, j as int),
        decreases n - j,
    {
        j = j + 1;
    }
    j
}

fn scan_comment(src: &str, from: usize, n: usize) -> (j: usize)
    requires
        n == src@.len(),
        from <= n,
    ensures
        from <= j <= n,
        j == scan_comment_end(src@, from as int),
{
    let mut j = from;
    while j < n && comment_at(src, j)
        invariant
            from <= j <= n,
            n == src@.len(),
            scan_comment_end(src@, from as int) == scan_comment_end(src@, j as int),
        decreases n - j,
    {
        j = j + 1;
    }
    j
}

/// Appending digits never shrinks a literal's value.
proof fn lemma_dec_val_mono(s: Seq<char>, a: int, m: int, b: int)
    requires
        a <= m <= b,
    ensures
        dec_val(s, a, m) <= dec_val(s, a, b),
    decreases b - m,
{
    if m < b {
        lemma_dec_val_mono(s, a, m, b - 1);
    }
}

proof fn lemma_hex_val_mono(s: Seq<char>, a: int, m: int, b: int)
    requires
        a <= m <= b,
    ensures
        hex_val(s, a, m) <= hex_val(s, a, b),
    decreases b - m,
{
    if m < b {
        lemma_hex_val_mono(s, a, m, b - 1);
    }
}

proof fn lemma_bin_val_mono(s: Seq<char>, a: int, m: int, b: int)
    requires
        a <= m <= b,
    ensures
        bin_val(s, a, m) <= bin_val(s, a, b),
    decreases b - m,
{
    if m < b {
        lemma_bin_val_mono(s, a, m, b - 1);
    }
}

fn dec_value(src: &str, a: usize, b: usize) -> (r: Option<u64>)
    requires
        a <= b <= src@.len(),
        forall|j: int| a <= j < b ==> is_digit_char(src@[j]),
    ensures
        r matches Some(v) ==> v == dec_val(src@, a as int, b as int),
        r matches Some(v) ==> dec_val(src@, a as int, b as int) <= u64::MAX,
        r is None ==> dec_val(src@, a as int, b as int) > u64::MAX,
{
    let mut v: u64 = 0;
    let mut k: usize = a;
    while k < b
        invariant
            a <= k <= b,
            b <= src@.len(),
            forall|j: int| a <= j < b ==> is_digit_char(src@[j]),
            v == dec_val(src@, a as int, k as int),
        decreases b - k,
    {
        let c = src.get_char(k);
        let d = (c as u32 - 48) as u64;
        if v > (u64::MAX - d) / 10 {
            proof {
                lemma_dec_val_mono(src@, a as int, k as int + 1, b as int);
            }
            return None;
        }
        v = v * 10 + d;
        k = k + 1;
    }
    Some(v)
}

fn hex_value(src: &str, a: usize, b: usize) -> (r: (usize, Option<u64>))
    requires
        a <= b <= src@.len(),
        forall|j: int| a <= j < b ==> is_hex_run_char(src@[j]),
    ensures
        r.0 == digit_count(src@, a as int, b as int),
        r.1 matches Some(v) ==> v == hex_val(src@, a as int, b as int),
        r.1 matches Some(v) ==> hex_val(src@, a as int, b as int) <= u64::MAX,
        r.1 is None ==> hex_val(src@, a as int, b as int) > u64::MAX,
{
    let mut v: u64 = 0;
    let mut count: usize = 0;
    let mut k: usize = a;
    let mut overflowed = false;
    while k < b
        invariant
            a <= k <= b,
            b <= src@.len(),
            forall|j: int| a <= j < b ==> is_hex_run_char(src@[j]),
            count == digit_count(src@, a as int, k as int),
            count <= k - a,
            !overflowed ==> v == hex_val(src@, a as int, k as int),
            overflowed ==> hex_val(src@, a as int, b as int) > u64::MAX,
        decreases b - k,
    {
        let c = src.get_char(k);
        if c != '_' {
            count = count + 1;
            if !overflowed {
                let u = c as u32;
                let d: u64 = if u >= 97 {
                    (u - 87) as u64
                } else if u >= 65 {
                    (u - 55) as u64
                } else {
                    (u - 48) as u64
                };
                if v > (u64::MAX - d) / 16 {
                    proof {
                        lemma_hex_val_mono(src@, a as int, k as int + 1, b as int);
                    }
                    overflowed = true;
                } else {
                    v = v * 16 + d;
                }
            }
        }
        k = k + 1;
    }
    if overflowed {
        (count, None)
    } else {
        (count, Some(v))
    }
}

fn bin_value(src: &str, a: usize, b: usize) -> (r: (usize, Option<u64>))
    requires
        a <= b <= src@.len(),
        forall|j: int| a <= j < b ==> is_bin_run_char(src@[j]),
    ensures
        r.0 == digit_count(src@, a as int, b as int),
        r.1 matches Some(v) ==> v == bin_val(src@, a as int, b as int),
        r.1 matches Some(v) ==> bin_val(src@, a as int, b as int) <= u64::MAX,
        r.1 is None ==> bin_val(src@, a as int, b as int) > u64::MAX,
{
    let mut v: u64 = 0;
    let mut count: usize = 0;
    let mut k: usize = a;
    let mut overflowed = false;
    while k < b
        invariant
            a <= k <= b,
            b <= src@.len(),
            forall|j: int| a <= j < b ==> is_bin_run_char(src@[j]),
            count == digit_count(src@, a as int, k as int),
            count <= k - a,
            !overflowed ==> v == bin_val(src@, a as int, k as int),
            overflowed ==> bin_val(src@, a as int, b as int) > u64::MAX,
        decreases b - k,
    {
        let c = src.get_char(k);
        if c != '_' {
            count = count + 1;
            if !overflowed {
                let d: u64 = if c == '1' {
                    1
                } else {
                    0
                };
                if v > (u64::MAX - d) / 2 {
                    proof {
                        lemma_bin_val_mono(src@, a as int, k as int + 1, b as int);
                    }
                    overflowed = true;
                } else {
                    v = v * 2 + d;
                }
            }
        }
        k = k + 1;
    }
    if overflowed {
        (count, None)
    } else {
        (count, Some(v))
    }
}

fn str_eqs(s: &String, lit: &str) -> (r: bool)
    ensures
        r == (s@ == lit@),
{
    let other = String::from_str(lit);
    *s == other
}

/// The token a word lexes to: a keyword of the language, or an identifier.
fn keyword_token(ident: String) -> (r: TokenKind)
    ensures
        r@ == keyword_kind(ident@),
{
    if str_eqs(&ident, "load") {
        TokenKind::KeywordLoad
    } else if str_eqs(&ident, "store") {
        TokenKind::KeywordStore
    } else if str_eqs(&ident, "copy") {
        TokenKind::KeywordCopy
    } else if str_eqs(&ident, "aloc") {
        TokenKind::KeywordAloc
    } else if str_eqs(&ident, "push") {
        TokenKind::KeywordPush
    } else if str_eqs(&ident, "pop") {
        TokenKind::KeywordPop
    } else if str_eqs(&ident, "add") {
        TokenKind::KeywordAdd
    } else if str_eqs(&ident, "sub") {
        TokenKind::KeywordSub
    } else if str_eqs(&ident, "div") {
        TokenKind::KeywordDiv
    } else if str_eqs(&ident, "mul") {
        TokenKind::KeywordMul
    } else if str_eqs(&ident, "inc") {
        TokenKind::KeywordInc
    } else if str_eqs(&ident, "eq") {
        TokenKind::KeywordEq
    } else if str_eqs(&ident, "jne") {
        TokenKind::KeywordJne
    } else if str_eqs(&ident, "hult") {
        TokenKind::KeywordHult
    } else if str_eqs(&ident, "printreg") {
        TokenKind::KeywordPrintReg
    } else if str_eqs(&ident, "call") {
        TokenKind::KeywordCall
    } else if str_eqs(&ident, "and") {
        TokenKind::KeywordAnd
    } else if str_eqs(&ident, "or") {
        TokenKind::KeywordOr
    } else if str_eqs(&ident, "shr") {
        TokenKind::KeywordShr
    } else if str_eqs(&ident, "return") {
        TokenKind::KeywordReturn
    } else if str_eqs(&ident, "syscall") {
        TokenKind::KeywordSyscall
    } else {
        TokenKind::Identifier(ident)
    }
}

/// Pushing a token onto the finished list moves it out of the pending
/// lexing result.
proof fn lemma_lex_push(done: Seq<Token>, t: Token, rest: Result<Seq<TokenModel>, BitBoxError>)
    ensures
        lex_concat(token_views(done.push(t)), rest) == lex_concat(
            token_views(done),
            lex_cons(t@, rest),
        ),
{
    assert(token_views(done.push(t)) =~= token_views(done).push(t@));
    match rest {
        Ok(ts) => {
            assert(token_views(done).push(t@) + ts =~= token_views(done) + (seq![t@] + ts));
        },
        Err(_) => {},
    }
}

/// Appends the pending result to the finished tokens; an error swallows
/// everything.
pub open spec fn lex_concat(done: Seq<TokenModel>, rest: Result<Seq<TokenModel>, BitBoxError>) -> Result<
    Seq<TokenModel>,
    BitBoxError,
> {
    match rest {
        Ok(ts) => Ok(done + ts),
        Err(e) => Err(e),
    }
}

/// A lexer position: the next character, with the row count, the start of
/// the current line, and whether the previous character broke a line.
#[derive(Clone, Copy)]
struct Cursor {
    i: usize,
    row: usize,
    ls: usize,
    prev_nl: bool,
}

/// The cursor agrees with the position functions of the text.
spec fn cursor_ok(s: Seq<char>, c: Cursor) -> bool {
    &&& c.i <= s.len()
    &&& c.ls <= c.i
    &&& c.row <= c.i
    &&& c.row == row_of(s, c.i as int)
    &&& c.ls == line_start(s, c.i as int)
    &&& c.prev_nl == (c.i >= 1 && s[c.i as int - 1] == '\n')
}

/// What one lexer step produced.
enum LexStep {
    Tok(Token),
    Skip,
    Fail(BitBoxError),
}

/// Builds the span of the token or skip run `a .. j` and the cursor after
/// it, for a run that contains no line break.
fn advance_run(src: &str, cur: Cursor, j: usize) -> (r: (Span, Cursor))
    requires
        cursor_ok(src@, cur),
        cur.i < j <= src@.len(),
        forall|k: int| cur.i <= k < j ==> src@[k] != '\n',
    ensures
        cursor_ok(src@, r.1),
        r.1.i == j,
        r.0 == token_span(src@, cur.i as int, j as int),
{
    proof {
        lemma_pos_run(src@, cur.i as int, j as int);
    }
    let new_row = if cur.prev_nl {
        cur.row + 1
    } else {
        cur.row
    };
    let sp = Span {
        row_start: cur.row,
        row_end: new_row,
        col_start: cur.i - cur.ls,
        col_end: j - cur.ls,
        byte_start: cur.i,
        byte_end: j,
    };
    (sp, Cursor { i: j, row: new_row, ls: cur.ls, prev_nl: false })
}

/// Lexes one token, skip run or error at the cursor, mirroring one
/// unfolding of [`spec_lex_from`].
#[verifier::rlimit(60)]
fn lex_step(src: &str, n: usize, cur: Cursor) -> (r: (LexStep, Cursor))
    requires
        n == src@.len(),
        cursor_ok(src@, cur),
        cur.i < n,
    ensures
        cursor_ok(src@, r.1),
        cur.i < r.1.i <= n,
        match r.0 {
            LexStep::Tok(t) => spec_lex_from(src@, cur.i as int) == lex_cons(
                t@,
                spec_lex_from(src@, r.1.i as int),
            ),
            LexStep::Skip => spec_lex_from(src@, cur.i as int) == spec_lex_from(
                src@,
                r.1.i as int,
            ),
            LexStep::Fail(e) => spec_lex_from(src@, cur.i as int) == Err::<
                Seq<TokenModel>,
                BitBoxError,
            >(e),
        },
{
    let ghost s = src@;
    let i = cur.i;
    let c = src.get_char(i);
    if c == '0' && i + 1 < n && src.get_char(i + 1) == 'x' {
        let j = scan_hex(src, i + 2, n);
        proof {
            lemma_scan_hex_end(s, i as int + 2);
        }
        let (sp, cur2) = advance_run(src, cur, j);
        let (count, value) = hex_value(src, i + 2, j);
        if count == 0 {
            return (LexStep::Fail(BitBoxError::InvalidNumber(sp)), cur2);
        }
        match value {
            Some(v) => (LexStep::Tok(Token { kind: TokenKind::Number(v), span: sp }), cur2),
            None => (LexStep::Fail(BitBoxError::InvalidNumber(sp)), cur2),
        }
    } else if c == '0' && i + 1 < n && src.get_char(i + 1) == 'b' {
        let j = scan_bin(src, i + 2, n);
        proof {
            lemma_scan_bin_end(s, i as int + 2);
        }
        let (sp, cur2) = advance_run(src, cur, j);
        let (count, value) = bin_value(src, i + 2, j);
        if count == 0 {
            return (LexStep::Fail(BitBoxError::InvalidNumber(sp)), cur2);
        }
        match value {
            Some(v) => (LexStep::Tok(Token { kind: TokenKind::Number(v), span: sp }), cur2),
            None => (LexStep::Fail(BitBoxError::InvalidNumber(sp)), cur2),
        }
    } else if is_digit_c(c) {
        let j = scan_digits(src, i, n);
        proof {
            lemma_scan_dec_end(s, i as int);
        }
        let (sp, cur2) = advance_run(src, cur, j);
        match dec_value(src, i, j) {
            Some(v) => (LexStep::Tok(Token { kind: TokenKind::Number(v), span: sp }), cur2),
            None => (LexStep::Fail(BitBoxError::InvalidNumber(sp)), cur2),
        }
    } else if is_ident_start_c(c) {
        let j = scan_idents(src, i, n);
        proof {
            lemma_scan_ident_end(s, i as int);
        }
        let (sp, cur2) = advance_run(src, cur, j);
        let ident = src.substring_char(i, j).to_owned();
        let kind = keyword_token(ident);
        (LexStep::Tok(Token { kind, span: sp }), cur2)
    } else if c == ' ' || c == '\t' {
        let (_, cur2) = advance_run(src, cur, i + 1);
        (LexStep::Skip, cur2)
    } else if c == ';' {
        let j = scan_comment(src, i, n);
        proof {
            lemma_scan_comment_end(s, i as int);
        }
        let (_, cur2) = advance_run(src, cur, j);
        (LexStep::Skip, cur2)
    } else if c == '\n' {
        let new_row = if cur.prev_nl {
            cur.row + 1
        } else {
            cur.row
        };
        let sp = Span {
            row_start: cur.row,
            row_end: new_row,
            col_start: i - cur.ls,
            col_end: i + 1 - cur.ls,
            byte_start: i,
            byte_end: i + 1,
        };
        proof {
            lemma_pos_run(s, i as int, i as int + 1);
            assert(sp == token_span(s, i as int, i as int + 1));
        }
        let cur2 = Cursor { i: i + 1, row: new_row, ls: i + 1, prev_nl: true };
        (LexStep::Tok(Token { kind: TokenKind::Delimiter, span: sp }), cur2)
    } else {
        let (sp, cur2) = advance_run(src, cur, i + 1);
        let kind = match c {
            '=' => Some(TokenKind::Equal),
            '(' => Some(TokenKind::LeftParen),
            ')' => Some(TokenKind::RightParen),
            '{' => Some(TokenKind::LeftBrace),
            '}' => Some(TokenKind::RightBrace),
            '[' => Some(TokenKind::LeftBracket),
            ']' => Some(TokenKind::RightBracket),
            ',' => Some(TokenKind::Comma),
            '.' => Some(TokenKind::Period),
            ':' => Some(TokenKind::Colon),
            '%' => Some(TokenKind::PercentSign),
            '&' => Some(TokenKind::Ampersand),
            _ => None,
        };
        match kind {
            Some(kind) => (LexStep::Tok(Token { kind, span: sp }), cur2),
            None => (LexStep::Fail(BitBoxError::UnexpectedCharacter(c, sp)), cur2),
        }
    }
}

/// Tokenizes assembly source, producing exactly what [`spec_lex`] says:
/// the token sequence with its spans, or the first lexical error.
pub fn lex(src: &str) -> (r: Result<Vec<Token>, BitBoxError>)
    ensures
        r matches Ok(toks) ==> (spec_lex(src@) matches Ok(models) && token_views(toks@) == models),
        r matches Err(e) ==> (spec_lex(src@) matches Err(e2) && e == e2),
{
    let n = src.unicode_len();
    let mut tokens: Vec<Token> = Vec::new();
    let mut cur = Cursor { i: 0, row: 0, ls: 0, prev_nl: false };
    while cur.i < n
        invariant
            n == src@.len(),
            cursor_ok(src@, cur),
            spec_lex(src@) == lex_concat(token_views(tokens@), spec_lex_from(src@, cur.i as int)),
        decreases n - cur.i,
    {
        let (step, cur2) = lex_step(src, n, cur);
        match step {
            LexStep::Tok(t) => {
                proof {
                    lemma_lex_push(tokens@, t, spec_lex_from(src@, cur2.i as int));
                }
                tokens.push(t);
            },
            LexStep::Skip => {},
            LexStep::Fail(e) => {
                return Err(e);
            },
        }
        cur = cur2;
    }
    proof {
        assert(spec_lex_from(src@, cur.i as int) == Ok::<Seq<TokenModel>, BitBoxError>(
            Seq::empty(),
        ));
        assert(token_views(tokens@) + Seq::<TokenModel>::empty() =~= token_views(tokens@));
    }
    Ok(tokens)
}

} // verus!
