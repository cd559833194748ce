//! Translation of the token stream into typed, labeled instructions.
//!
//! The grammar is line-oriented: an `.entry` directive, label definitions
//! `name:`, and one instruction per line, each closed by a delimiter.  The
//! parser collects errors and carries on at the point where a statement
//! failed, so one run reports every parse error; parsing succeeds only
//! when no error was collected and an entry point was seen.  [`parse`]
//! returns exactly what the specification-level parser
//! ([`spec_parse_items`] over [`crate::lexer::spec_lex`]) says.

use vstd::prelude::*;

use crate::encoding::le_bytes;
use crate::error::BitBoxError;
use crate::instructions::DataModel;
use crate::instructions::InstrModel;
use crate::instructions::Instruction;
use crate::instructions::Label;
use crate::instructions::LabelModel;
use crate::instructions::Opcode;
use crate::instructions::TargetModel;
use crate::instructions::Type;
use crate::lexer::Span;
use crate::lexer::Token;
use crate::lexer::TokenKind;
use crate::lexer::TokenKindModel;
use crate::lexer::TokenModel;

verus! {

/// A parse-time error, with the offending token kind and its span where one
/// applies.  The parser collects these and reports the whole batch.
#[derive(Debug)]
pub enum ParserError {
    UnknownDirective(String, Span),
    MissingEntryPoint,
    ExpectedIdentifier(TokenKind, Span),
    ExpectedNumber(TokenKind, Span),
    ExpectedDelimiter(TokenKind, Span),
    ExpectedPercentSign(TokenKind, Span),
    ExpectedColon(TokenKind, Span),
    UnexpectedEof,
    ExpectedRightBracket(TokenKind, Span),
    ExpectedLeftBracket(TokenKind, Span),
    ExpectedSign(TokenKind, Span),
    InvalidImmType(TokenKind, Span),
    RegisterOutOfBounds(u64, Span),
    UnexpectedToken(TokenKind, Span),
}

/// Specification-level parse error.
pub enum ParserErrorModel {
    UnknownDirective(Seq<char>, Span),
    MissingEntryPoint,
    ExpectedIdentifier(TokenKindModel, Span),
    ExpectedNumber(TokenKindModel, Span),
    ExpectedDelimiter(TokenKindModel, Span),
    ExpectedPercentSign(TokenKindModel, Span),
    ExpectedColon(TokenKindModel, Span),
    UnexpectedEof,
    ExpectedRightBracket(TokenKindModel, Span),
    ExpectedLeftBracket(TokenKindModel, Span),
    ExpectedSign(TokenKindModel, Span),
    InvalidImmType(TokenKindModel, Span),
    RegisterOutOfBounds(u64, Span),
    UnexpectedToken(TokenKindModel, Span),
}

impl View for ParserError {
    type V = ParserErrorModel;

    open spec fn view(&self) -> ParserErrorModel {
        match self {
            ParserError::UnknownDirective(n, s) => ParserErrorModel::UnknownDirective(n@, *s),
            ParserError::MissingEntryPoint => ParserErrorModel::MissingEntryPoint,
            ParserError::ExpectedIdentifier(k, s) => ParserErrorModel::ExpectedIdentifier(k@, *s),
            ParserError::ExpectedNumber(k, s) => ParserErrorModel::ExpectedNumber(k@, *s),
            ParserError::ExpectedDelimiter(k, s) => ParserErrorModel::ExpectedDelimiter(k@, *s),
            ParserError::ExpectedPercentSign(k, s) => ParserErrorModel::ExpectedPercentSign(
                k@,
                *s,
            ),
            ParserError::ExpectedColon(k, s) => ParserErrorModel::ExpectedColon(k@, *s),
            ParserError::UnexpectedEof => ParserErrorModel::UnexpectedEof,
            ParserError::ExpectedRightBracket(k, s) => ParserErrorModel::ExpectedRightBracket(
                k@,
                *s,
            ),
            ParserError::ExpectedLeftBracket(k, s) => ParserErrorModel::ExpectedLeftBracket(
                k@,
                *s,
            ),
            ParserError::ExpectedSign(k, s) => ParserErrorModel::ExpectedSign(k@, *s),
            ParserError::InvalidImmType(k, s) => ParserErrorModel::InvalidImmType(k@, *s),
            ParserError::RegisterOutOfBounds(v, s) => ParserErrorModel::RegisterOutOfBounds(
                *v,
                *s,
            ),
            ParserError::UnexpectedToken(k, s) => ParserErrorModel::UnexpectedToken(k@, *s),
        }
    }
}

/// The views of an error batch, element by element.
pub open spec fn pe_views(es: Seq<ParserError>) -> Seq<ParserErrorModel> {
    es.map_values(|e: ParserError| e@)
}

/// A top-level item of a parsed program: the entry directive or the text
/// section.
#[derive(Debug)]
pub enum Item {
    EntryPoint(Token),
    Text(Vec<Text>),
}

/// One instruction of the text section, with its span and the label bound
/// to it, if any.
#[derive(Debug)]
pub struct Text {
    pub label: Option<Label>,
    pub opcode: Instruction,
    pub span: Span,
}

/// Specification-level text item.
pub struct TextModel {
    pub label: Option<LabelModel>,
    pub instr: InstrModel,
    pub span: Span,
}

impl View for Text {
    type V = TextModel;

    open spec fn view(&self) -> TextModel {
        TextModel {
            label: match &self.label {
                Some(l) => Some(l@),
                None => None,
            },
            instr: self.opcode@,
            span: self.span,
        }
    }
}

/// The views of a text section, element by element.
pub open spec fn text_views(ts: Seq<Text>) -> Seq<TextModel> {
    ts.map_values(|t: Text| t@)
}

impl Text {
    /// A text item without a label.
    pub fn new_opcode(opcode: Instruction, span: Span) -> (r: Self)
        ensures
            r@ == (TextModel { label: None, instr: opcode@, span }),
    {
        Self { label: None, opcode, span }
    }

    /// A text item carrying the label definition that prefixed it.  The
    /// label token must be an identifier.
    pub fn new_opcode_with_label(label_token: Token, opcode: Instruction, span: Span) -> (r: Self)
        requires
            label_token@.kind is Identifier,
        ensures
            r@ == (TextModel {
                label: Some(label_def_model(label_token@)),
                instr: opcode@,
                span,
            }),
    {
        let name = match label_token.kind {
            TokenKind::Identifier(name) => name,
            _ => String::new(),  // ruled out by the precondition
        };
        Self {
            label: Some(Label { name, span: label_token.span, def: true }),
            opcode,
            span,
        }
    }

    /// The item's span, widened over its label when it has one.
    pub fn _span(&self) -> (r: Span)
        ensures
            r == (match self@.label {
                Some(l) => Span {
                    row_start: l.span.row_start,
                    row_end: self@.span.row_end,
                    col_start: l.span.col_start,
                    col_end: self@.span.col_end,
                    byte_start: l.span.byte_start,
                    byte_end: self@.span.byte_end,
                },
                None => self@.span,
            }),
    {
        match &self.label {
            Some(label) => Span::merge(label.span, self.span),
            None => self.span,
        }
    }
}

/// The label definition an identifier token binds.
pub open spec fn label_def_model(t: TokenModel) -> LabelModel {
    LabelModel {
        name: match t.kind {
            TokenKindModel::Identifier(name) => name,
            _ => Seq::empty(),
        },
        span: t.span,
        def: true,
    }
}

/// The parser's accumulated state: the entry token, a pending label, the
/// text section and the errors collected so far.
pub struct ParseState {
    pub entry: Option<TokenModel>,
    pub label: Option<TokenModel>,
    pub texts: Seq<TextModel>,
    pub errors: Seq<ParserErrorModel>,
}

/// The state a parse starts from.
pub open spec fn init_state() -> ParseState {
    ParseState { entry: None, label: None, texts: Seq::empty(), errors: Seq::empty() }
}

/// Pushes a parsed instruction into the state, attaching and clearing the
/// pending label.
pub open spec fn state_push_text(st: ParseState, instr: InstrModel, span: Span) -> ParseState {
    ParseState {
        label: None,
        texts: st.texts.push(
            TextModel {
                label: match st.label {
                    Some(t) => Some(label_def_model(t)),
                    None => None,
                },
                instr,
                span,
            },
        ),
        ..st
    }
}

/// Records an error, leaving the rest of the state alone.
pub open spec fn state_push_error(st: ParseState, e: ParserErrorModel) -> ParseState {
    ParseState { errors: st.errors.push(e), ..st }
}

/// `%N`: a register operand below the register count, or the error the
/// tokens at `i` produce; the returned position is where parsing resumes.
pub open spec fn spec_parse_reg(toks: Seq<TokenModel>, i: int) -> (Result<u8, ParserErrorModel>, int) {
    if i >= toks.len() {
        (Err(ParserErrorModel::UnexpectedEof), i)
    } else if !(toks[i].kind is PercentSign) {
        (Err(ParserErrorModel::ExpectedPercentSign(toks[i].kind, toks[i].span)), i + 1)
    } else if i + 1 >= toks.len() {
        (Err(ParserErrorModel::UnexpectedEof), i + 1)
    } else {
        match toks[i + 1].kind {
            TokenKindModel::Number(v) => if v >= 32 {
                (Err(ParserErrorModel::RegisterOutOfBounds(v, toks[i + 1].span)), i + 2)
            } else {
                (Ok(v as u8), i + 2)
            },
            k => (Err(ParserErrorModel::ExpectedNumber(k, toks[i + 1].span)), i + 2),
        }
    }
}

/// The width a name such as `32` spells, if any.
pub open spec fn spec_width_of(rest: Seq<char>) -> Option<u8> {
    if rest == "8"@ {
        Some(8u8)
    } else if rest == "16"@ {
        Some(16u8)
    } else if rest == "32"@ {
        Some(32u8)
    } else if rest == "64"@ {
        Some(64u8)
    } else if rest == "128"@ {
        Some(128u8)
    } else {
        None
    }
}

/// The type a type identifier such as `u32` names: a sign letter and a
/// width.  `Err(0)` is a missing sign letter, `Err(1)` an invalid width
/// (`i128` among them, having no wire encoding).
pub open spec fn spec_type_of_name(name: Seq<char>) -> Result<Type, int> {
    if name.len() == 0 {
        Err(0int)
    } else if name[0] == 'i' || name[0] == 'I' {
        match spec_width_of(name.subrange(1, name.len() as int)) {
            Some(w) => if w == 128 {
                Err(1int)
            } else {
                Ok(Type::I(w))
            },
            None => Err(1int),
        }
    } else if name[0] == 'u' || name[0] == 'U' {
        match spec_width_of(name.subrange(1, name.len() as int)) {
            Some(w) => Ok(Type::U(w)),
            None => Err(1int),
        }
    } else {
        Err(0int)
    }
}

/// `[TYPE]`: a bracketed type annotation, or the error the tokens at `i`
/// produce.
pub open spec fn spec_parse_type(toks: Seq<TokenModel>, i: int) -> (
    Result<Type, ParserErrorModel>,
    int,
) {
    if i >= toks.len() {
        (Err(ParserErrorModel::UnexpectedEof), i)
    } else if !(toks[i].kind is LeftBracket) {
        (Err(ParserErrorModel::ExpectedLeftBracket(toks[i].kind, toks[i].span)), i + 1)
    } else if i + 1 >= toks.len() {
        (Err(ParserErrorModel::UnexpectedEof), i + 1)
    } else {
        match toks[i + 1].kind {
            TokenKindModel::Identifier(name) => {
                match spec_type_of_name(name) {
                    Err(which) => if which == 0 {
                        // A missing sign letter is reported only after the
                        // closing bracket; an invalid width at once.
                        if spec_width_name(name.subrange(1, name.len() as int)) || name.len() == 0 {
                            spec_close_type(toks, i, Err(0int), Type::Void)
                        } else {
                            (
                                Err(
                                    ParserErrorModel::InvalidImmType(
                                        toks[i + 1].kind,
                                        toks[i + 1].span,
                                    ),
                                ),
                                i + 2,
                            )
                        }
                    } else {
                        (
                            Err(
                                ParserErrorModel::InvalidImmType(toks[i + 1].kind, toks[i + 1].span),
                            ),
                            i + 2,
                        )
                    },
                    Ok(ty) => spec_close_type(toks, i, Ok(0int), ty),
                }
            },
            k => (Err(ParserErrorModel::ExpectedIdentifier(k, toks[i + 1].span)), i + 2),
        }
    }
}

/// Whether a character sequence is one of the width names.
pub open spec fn spec_width_name(rest: Seq<char>) -> bool {
    spec_width_of(rest) is Some
}

/// Consumes the closing bracket of a type annotation; a missing sign
/// letter is reported only once the annotation is closed.
pub open spec fn spec_close_type(
    toks: Seq<TokenModel>,
    i: int,
    sign_ok: Result<int, int>,
    ty: Type,
) -> (Result<Type, ParserErrorModel>, int) {
    if i + 2 >= toks.len() {
        (Err(ParserErrorModel::UnexpectedEof), i + 2)
    } else if !(toks[i + 2].kind is RightBracket) {
        (Err(ParserErrorModel::ExpectedRightBracket(toks[i + 2].kind, toks[i + 2].span)), i + 3)
    } else if sign_ok is Err {
        (Err(ParserErrorModel::ExpectedSign(toks[i + 1].kind, toks[i + 1].span)), i + 3)
    } else {
        (Ok(ty), i + 3)
    }
}

/// An immediate literal, encoded to the type's width in little-endian
/// bytes.
pub open spec fn spec_parse_value(toks: Seq<TokenModel>, i: int, ty: Type) -> (
    Result<Seq<u8>, ParserErrorModel>,
    int,
) {
    if i >= toks.len() {
        (Err(ParserErrorModel::UnexpectedEof), i)
    } else {
        match toks[i].kind {
            TokenKindModel::Number(v) => if ty is Void {
                (Err(ParserErrorModel::InvalidImmType(toks[i].kind, toks[i].span)), i + 1)
            } else {
                (Ok(le_bytes(v as nat, crate::instructions::type_width_bytes(ty))), i + 1)
            },
            k => (Err(ParserErrorModel::ExpectedNumber(k, toks[i].span)), i + 1),
        }
    }
}

/// A label reference: an identifier naming a target to resolve later.
pub open spec fn spec_parse_label(toks: Seq<TokenModel>, i: int) -> (
    Result<LabelModel, ParserErrorModel>,
    int,
) {
    if i >= toks.len() {
        (Err(ParserErrorModel::UnexpectedEof), i)
    } else {
        match toks[i].kind {
            TokenKindModel::Identifier(name) => (
                Ok(LabelModel { name, span: toks[i].span, def: false }),
                i + 1,
            ),
            k => (Err(ParserErrorModel::ExpectedIdentifier(k, toks[i].span)), i + 1),
        }
    }
}

/// The line-closing delimiter; its span ends the statement's span.
pub open spec fn spec_consume_delim(toks: Seq<TokenModel>, i: int) -> (
    Result<Span, ParserErrorModel>,
    int,
) {
    if i >= toks.len() {
        (Err(ParserErrorModel::UnexpectedEof), i)
    } else if !(toks[i].kind is Delimiter) {
        (Err(ParserErrorModel::ExpectedDelimiter(toks[i].kind, toks[i].span)), i + 1)
    } else {
        (Ok(toks[i].span), i + 1)
    }
}

/// The span of a statement: from its keyword to its closing delimiter.
pub open spec fn stmt_span(ktok: TokenModel, dspan: Span) -> Span {
    Span {
        row_start: ktok.span.row_start,
        row_end: dspan.row_end,
        col_start: ktok.span.col_start,
        col_end: dspan.col_end,
        byte_start: ktok.span.byte_start,
        byte_end: dspan.byte_end,
    }
}

/// `OP [TYPE] %A`: one register after a type annotation.
pub open spec fn spec_stmt_reg1(toks: Seq<TokenModel>, i: int, op: Opcode, ktok: TokenModel) -> (
    Result<(InstrModel, Span), ParserErrorModel>,
    int,
) {
    let (tyr, i1) = spec_parse_type(toks, i);
    match tyr {
        Err(e) => (Err(e), i1),
        Ok(ty) => {
            let (ar, i2) = spec_parse_reg(toks, i1);
            match ar {
                Err(e) => (Err(e), i2),
                Ok(a) => {
                    let (dr, i3) = spec_consume_delim(toks, i2);
                    match dr {
                        Err(e) => (Err(e), i3),
                        Ok(dspan) => (
                            Ok(
                                (
                                    InstrModel { opcode: op, ty, data: DataModel::Reg1(a) },
                                    stmt_span(ktok, dspan),
                                ),
                            ),
                            i3,
                        ),
                    }
                },
            }
        },
    }
}

/// `OP [TYPE] %A %B`: two registers after a type annotation.
pub open spec fn spec_stmt_reg2(toks: Seq<TokenModel>, i: int, op: Opcode, ktok: TokenModel) -> (
    Result<(InstrModel, Span), ParserErrorModel>,
    int,
) {
    let (tyr, i1) = spec_parse_type(toks, i);
    match tyr {
        Err(e) => (Err(e), i1),
        Ok(ty) => {
            let (ar, i2) = spec_parse_reg(toks, i1);
            match ar {
                Err(e) => (Err(e), i2),
                Ok(a) => {
                    let (br, i3) = spec_parse_reg(toks, i2);
                    match br {
                        Err(e) => (Err(e), i3),
                        Ok(b) => {
                            let (dr, i4) = spec_consume_delim(toks, i3);
                            match dr {
                                Err(e) => (Err(e), i4),
                                Ok(dspan) => (
                                    Ok(
                                        (
                                            InstrModel {
                                                opcode: op,
                                                ty,
                                                data: DataModel::Reg2(a, b),
                                            },
                                            stmt_span(ktok, dspan),
                                        ),
                                    ),
                                    i4,
                                ),
                            }
                        },
                    }
                },
            }
        },
    }
}

/// `OP [TYPE] %A %B %C`: three registers after a type annotation.
pub open spec fn spec_stmt_reg3(toks: Seq<TokenModel>, i: int, op: Opcode, ktok: TokenModel) -> (
    Result<(InstrModel, Span), ParserErrorModel>,
    int,
) {
    let (tyr, i1) = spec_parse_type(toks, i);
    match tyr {
        Err(e) => (Err(e), i1),
        Ok(ty) => {
            let (ar, i2) = spec_parse_reg(toks, i1);
            match ar {
                Err(e) => (Err(e), i2),
                Ok(a) => {
                    let (br, i3) = spec_parse_reg(toks, i2);
                    match br {
                        Err(e) => (Err(e), i3),
                        Ok(b) => {
                            let (cr, i4) = spec_parse_reg(toks, i3);
                            match cr {
                                Err(e) => (Err(e), i4),
                                Ok(c) => {
                                    let (dr, i5) = spec_consume_delim(toks, i4);
                                    match dr {
                                        Err(e) => (Err(e), i5),
                                        Ok(dspan) => (
                                            Ok(
                                                (
                                                    InstrModel {
                                                        opcode: op,
                                                        ty,
                                                        data: DataModel::Reg3(a, b, c),
                                                    },
                                                    stmt_span(ktok, dspan),
                                                ),
                                            ),
                                            i5,
                                        ),
                                    }
                                },
                            }
                        },
                    }
                },
            }
        },
    }
}

/// `load [TYPE] %A VALUE`: a register and an immediate.
pub open spec fn spec_stmt_imm(toks: Seq<TokenModel>, i: int, op: Opcode, ktok: TokenModel) -> (
    Result<(InstrModel, Span), ParserErrorModel>,
    int,
) {
    let (tyr, i1) = spec_parse_type(toks, i);
    match tyr {
        Err(e) => (Err(e), i1),
        Ok(ty) => {
            let (ar, i2) = spec_parse_reg(toks, i1);
            match ar {
                Err(e) => (Err(e), i2),
                Ok(a) => {
                    let (vr, i3) = spec_parse_value(toks, i2, ty);
                    match vr {
                        Err(e) => (Err(e), i3),
                        Ok(imm) => {
                            let (dr, i4) = spec_consume_delim(toks, i3);
                            match dr {
                                Err(e) => (Err(e), i4),
                                Ok(dspan) => (
                                    Ok(
                                        (
                                            InstrModel {
                                                opcode: op,
                                                ty,
                                                data: DataModel::Imm(a, imm),
                                            },
                                            stmt_span(ktok, dspan),
                                        ),
                                    ),
                                    i4,
                                ),
                            }
                        },
                    }
                },
            }
        },
    }
}

/// `call TARGET`: a label reference.
pub open spec fn spec_stmt_label(toks: Seq<TokenModel>, i: int, op: Opcode, ktok: TokenModel) -> (
    Result<(InstrModel, Span), ParserErrorModel>,
    int,
) {
    let (lr, i1) = spec_parse_label(toks, i);
    match lr {
        Err(e) => (Err(e), i1),
        Ok(l) => {
            let (dr, i2) = spec_consume_delim(toks, i1);
            match dr {
                Err(e) => (Err(e), i2),
                Ok(dspan) => (
                    Ok(
                        (
                            InstrModel {
                                opcode: op,
                                ty: Type::Void,
                                data: DataModel::Label(TargetModel::Sym(l)),
                            },
                            stmt_span(ktok, dspan),
                        ),
                    ),
                    i2,
                ),
            }
        },
    }
}

/// `jne %A %B TARGET`: two registers and a label reference.
pub open spec fn spec_stmt_reg2label(
    toks: Seq<TokenModel>,
    i: int,
    op: Opcode,
    ktok: TokenModel,
) -> (Result<(InstrModel, Span), ParserErrorModel>, int) {
    let (ar, i1) = spec_parse_reg(toks, i);
    match ar {
        Err(e) => (Err(e), i1),
        Ok(a) => {
            let (br, i2) = spec_parse_reg(toks, i1);
            match br {
                Err(e) => (Err(e), i2),
                Ok(b) => {
                    let (lr, i3) = spec_parse_label(toks, i2);
                    match lr {
                        Err(e) => (Err(e), i3),
                        Ok(l) => {
                            let (dr, i4) = spec_consume_delim(toks, i3);
                            match dr {
                                Err(e) => (Err(e), i4),
                                Ok(dspan) => (
                                    Ok(
                                        (
                                            InstrModel {
                                                opcode: op,
                                                ty: Type::Void,
                                                data: DataModel::Reg2Label(
                                                    a,
                                                    b,
                                                    TargetModel::Sym(l),
                                                ),
                                            },
                                            stmt_span(ktok, dspan),
                                        ),
                                    ),
                                    i4,
                                ),
                            }
                        },
                    }
                },
            }
        },
    }
}

/// `hult` and the other bare opcodes: only the delimiter follows.
pub open spec fn spec_stmt_noargs(toks: Seq<TokenModel>, i: int, op: Opcode, ktok: TokenModel) -> (
    Result<(InstrModel, Span), ParserErrorModel>,
    int,
) {
    let (dr, i1) = spec_consume_delim(toks, i);
    match dr {
        Err(e) => (Err(e), i1),
        Ok(dspan) => (
            Ok(
                (
                    InstrModel { opcode: op, ty: Type::Void, data: DataModel::NoArgs },
                    stmt_span(ktok, dspan),
                ),
            ),
            i1,
        ),
    }
}

/// Applies a statement's outcome to the state: a parsed instruction joins
/// the text section, an error joins the batch.
pub open spec fn state_after_stmt(
    st: ParseState,
    out: Result<(InstrModel, Span), ParserErrorModel>,
) -> ParseState {
    match out {
        Ok(p) => state_push_text(st, p.0, p.1),
        Err(e) => state_push_error(st, e),
    }
}

/// `.entry NAME`: records the entry token; the name is recorded even when
/// the closing delimiter is missing.
pub open spec fn spec_stmt_directive(toks: Seq<TokenModel>, i: int, st: ParseState, ptok: TokenModel) -> (
    ParseState,
    int,
) {
    if i >= toks.len() {
        (state_push_error(st, ParserErrorModel::ExpectedIdentifier(ptok.kind, ptok.span)), i)
    } else {
        match toks[i].kind {
            TokenKindModel::Identifier(name) => {
                if name == "entry"@ {
                    if i + 1 >= toks.len() {
                        (state_push_error(st, ParserErrorModel::UnexpectedEof), i + 1)
                    } else {
                        match toks[i + 1].kind {
                            TokenKindModel::Identifier(_) => {
                                let st1 = ParseState { entry: Some(toks[i + 1]), ..st };
                                let (dr, i2) = spec_consume_delim(toks, i + 2);
                                match dr {
                                    Err(e) => (state_push_error(st1, e), i2),
                                    Ok(_) => (st1, i2),
                                }
                            },
                            k => (
                                state_push_error(
                                    st,
                                    ParserErrorModel::ExpectedIdentifier(k, toks[i + 1].span),
                                ),
                                i + 2,
                            ),
                        }
                    }
                } else {
                    (
                        state_push_error(
                            st,
                            ParserErrorModel::UnknownDirective(name, toks[i].span),
                        ),
                        i + 1,
                    )
                }
            },
            k => (
                state_push_error(st, ParserErrorModel::ExpectedIdentifier(k, toks[i].span)),
                i + 1,
            ),
        }
    }
}

/// One top-level statement at `i` (the runner guarantees `i` is in range):
/// the state it leaves and the position where parsing resumes.
pub open spec fn spec_statement(toks: Seq<TokenModel>, i: int, st: ParseState) -> (ParseState, int) {
    let t = toks[i];
    match t.kind {
        TokenKindModel::Period => spec_stmt_directive(toks, i + 1, st, t),
        TokenKindModel::KeywordLoad => (
            state_after_stmt(st, spec_stmt_imm(toks, i + 1, Opcode::Load, t).0),
            spec_stmt_imm(toks, i + 1, Opcode::Load, t).1,
        ),
        TokenKindModel::KeywordStore => (
            state_after_stmt(st, spec_stmt_reg2(toks, i + 1, Opcode::Store, t).0),
            spec_stmt_reg2(toks, i + 1, Opcode::Store, t).1,
        ),
        TokenKindModel::KeywordCopy => (
            state_after_stmt(st, spec_stmt_reg2(toks, i + 1, Opcode::Copy, t).0),
            spec_stmt_reg2(toks, i + 1, Opcode::Copy, t).1,
        ),
        TokenKindModel::KeywordAloc => (
            state_after_stmt(st, spec_stmt_reg2(toks, i + 1, Opcode::Aloc, t).0),
            spec_stmt_reg2(toks, i + 1, Opcode::Aloc, t).1,
        ),
        TokenKindModel::KeywordPush => (
            state_after_stmt(st, spec_stmt_reg1(toks, i + 1, Opcode::Push, t).0),
            spec_stmt_reg1(toks, i + 1, Opcode::Push, t).1,
        ),
        TokenKindModel::KeywordPop => (
            state_after_stmt(st, spec_stmt_reg1(toks, i + 1, Opcode::Pop, t).0),
            spec_stmt_reg1(toks, i + 1, Opcode::Pop, t).1,
        ),
        TokenKindModel::KeywordAdd => (
            state_after_stmt(st, spec_stmt_reg3(toks, i + 1, Opcode::Add, t).0),
            spec_stmt_reg3(toks, i + 1, Opcode::Add, t).1,
        ),
        TokenKindModel::KeywordSub => (
            state_after_stmt(st, spec_stmt_reg3(toks, i + 1, Opcode::Sub, t).0),
            spec_stmt_reg3(toks, i + 1, Opcode::Sub, t).1,
        ),
        TokenKindModel::KeywordDiv => (
            state_after_stmt(st, spec_stmt_reg3(toks, i + 1, Opcode::Div, t).0),
            spec_stmt_reg3(toks, i + 1, Opcode::Div, t).1,
        ),
        TokenKindModel::KeywordMul => (
            state_after_stmt(st, spec_stmt_reg3(toks, i + 1, Opcode::Mul, t).0),
            spec_stmt_reg3(toks, i + 1, Opcode::Mul, t).1,
        ),
        TokenKindModel::KeywordEq => (
            state_after_stmt(st, spec_stmt_reg3(toks, i + 1, Opcode::Eq, t).0),
            spec_stmt_reg3(toks, i + 1, Opcode::Eq, t).1,
        ),
        TokenKindModel::KeywordInc => (
            state_after_stmt(st, spec_stmt_reg1(toks, i + 1, Opcode::Inc, t).0),
            spec_stmt_reg1(toks, i + 1, Opcode::Inc, t).1,
        ),
        TokenKindModel::KeywordJne => (
            state_after_stmt(st, spec_stmt_reg2label(toks, i + 1, Opcode::Jne, t).0),
            spec_stmt_reg2label(toks, i + 1, Opcode::Jne, t).1,
        ),
        TokenKindModel::KeywordHult => (
            state_after_stmt(st, spec_stmt_noargs(toks, i + 1, Opcode::Hult, t).0),
            spec_stmt_noargs(toks, i + 1, Opcode::Hult, t).1,
        ),
        TokenKindModel::KeywordPrintReg => (
            state_after_stmt(st, spec_stmt_reg1(toks, i + 1, Opcode::PrintReg, t).0),
            spec_stmt_reg1(toks, i + 1, Opcode::PrintReg, t).1,
        ),
        TokenKindModel::KeywordCall => (
            state_after_stmt(st, spec_stmt_label(toks, i + 1, Opcode::Call, t).0),
            spec_stmt_label(toks, i + 1, Opcode::Call, t).1,
        ),
        TokenKindModel::KeywordAnd => (
            state_after_stmt(st, spec_stmt_reg3(toks, i + 1, Opcode::And, t).0),
            spec_stmt_reg3(toks, i + 1, Opcode::And, t).1,
        ),
        TokenKindModel::KeywordOr => (
            state_after_stmt(st, spec_stmt_reg3(toks, i + 1, Opcode::Or, t).0),
            spec_stmt_reg3(toks, i + 1, Opcode::Or, t).1,
        ),
        TokenKindModel::KeywordShr => (
            state_after_stmt(st, spec_stmt_reg3(toks, i + 1, Opcode::Shr, t).0),
            spec_stmt_reg3(toks, i + 1, Opcode::Shr, t).1,
        ),
        TokenKindModel::KeywordReturn => (
            state_after_stmt(st, spec_stmt_noargs(toks, i + 1, Opcode::Return, t).0),
            spec_stmt_noargs(toks, i + 1, Opcode::Return, t).1,
        ),
        TokenKindModel::KeywordSyscall => (
            state_after_stmt(st, spec_stmt_noargs(toks, i + 1, Opcode::Syscall, t).0),
            spec_stmt_noargs(toks, i + 1, Opcode::Syscall, t).1,
        ),
        TokenKindModel::Identifier(_) => {
            if i + 1 < toks.len() && toks[i + 1].kind is Colon {
                (ParseState { label: Some(t), ..st }, i + 2)
            } else {
                (state_push_error(st, ParserErrorModel::UnexpectedToken(t.kind, t.span)), i + 1)
            }
        },
        TokenKindModel::Delimiter => (st, i + 1),
        k => (state_push_error(st, ParserErrorModel::UnexpectedToken(k, t.span)), i + 1),
    }
}

/// Runs the parser from position `i` to the end of the tokens.
pub open spec fn run_parser(toks: Seq<TokenModel>, i: int, st: ParseState) -> ParseState
    decreases toks.len() - i,
    via run_parser_dec
{
    if i < 0 || i >= toks.len() {
        st
    } else {
        let (st2, j) = spec_statement(toks, i, st);
        run_parser(toks, j, st2)
    }
}

/// Every statement consumes at least its first token and never runs past
/// the end.
pub proof fn lemma_statement_progress(toks: Seq<TokenModel>, i: int, st: ParseState)
    requires
        0 <= i < toks.len(),
    ensures
        i < spec_statement(toks, i, st).1 <= toks.len(),
{
}

#[via_fn]
proof fn run_parser_dec(toks: Seq<TokenModel>, i: int, st: ParseState) {
    if 0 <= i < toks.len() {
        lemma_statement_progress(toks, i, st);
    }
}

/// The outcome of a parse over a token sequence: the entry token and the
/// text section, or the full error batch.  A missing entry point joins
/// the batch at the end; overwriting an earlier `.entry` with a later one
/// is deliberate (the last directive wins).
pub open spec fn spec_parse_items(toks: Seq<TokenModel>) -> Result<
    (TokenModel, Seq<TextModel>),
    Seq<ParserErrorModel>,
> {
    let st = run_parser(toks, 0, init_state());
    let errors = if st.entry is None {
        st.errors.push(ParserErrorModel::MissingEntryPoint)
    } else {
        st.errors
    };
    if errors.len() > 0 {
        Err(errors)
    } else {
        Ok((st.entry->Some_0, st.texts))
    }
}

/// Every instruction of the text section is well formed.
pub open spec fn texts_wf(ts: Seq<TextModel>) -> bool {
    forall|k: int| 0 <= k < ts.len() ==> crate::instructions::wf_instr(#[trigger] ts[k].instr)
}

/// The entry token, when recorded, is an identifier.
pub open spec fn entry_wf(e: Option<TokenModel>) -> bool {
    e matches Some(t) ==> t.kind is Identifier
}

/// A parsed type annotation is a valid non-void type tag.
proof fn lemma_parse_type_wf(toks: Seq<TokenModel>, i: int)
    ensures
        spec_parse_type(toks, i).0 matches Ok(t) ==> crate::instructions::wf_type(t) && !(t
            is Void),
{
}

/// A parsed immediate has exactly the type's width.
proof fn lemma_parse_value_len(toks: Seq<TokenModel>, i: int, ty: Type)
    ensures
        spec_parse_value(toks, i, ty).0 matches Ok(bs) ==> bs.len()
            == crate::instructions::type_width_bytes(ty),
{
    if i < toks.len() {
        match toks[i].kind {
            TokenKindModel::Number(v) => {
                if !(ty is Void) {
                    crate::encoding::lemma_le_bytes_len(
                        v as nat,
                        crate::instructions::type_width_bytes(ty),
                    );
                }
            },
            _ => {},
        }
    }
}

/// One statement leaves the text section well formed and the entry an
/// identifier.
proof fn lemma_statement_wf(toks: Seq<TokenModel>, i: int, st: ParseState)
    requires
        0 <= i < toks.len(),
        texts_wf(st.texts),
        entry_wf(st.entry),
    ensures
        texts_wf(spec_statement(toks, i, st).0.texts),
        entry_wf(spec_statement(toks, i, st).0.entry),
{
    let t = toks[i];
    lemma_parse_type_wf(toks, i + 1);
    let (tyr, i1) = spec_parse_type(toks, i + 1);
    match tyr {
        Ok(ty) => {
            lemma_parse_value_len(toks, spec_parse_reg(toks, i1).1, ty);
        },
        Err(_) => {},
    }
    let st2 = spec_statement(toks, i, st).0;
    assert forall|k: int| 0 <= k < st2.texts.len() implies crate::instructions::wf_instr(
        #[trigger] st2.texts[k].instr,
    ) by {
        if k < st.texts.len() {
            assert(crate::instructions::wf_instr(st.texts[k].instr));
        }
    }
}

/// The parser's run keeps every parsed instruction well formed and the
/// entry an identifier.
pub proof fn lemma_run_parser_wf(toks: Seq<TokenModel>, i: int, st: ParseState)
    requires
        texts_wf(st.texts),
        entry_wf(st.entry),
    ensures
        texts_wf(run_parser(toks, i, st).texts),
        entry_wf(run_parser(toks, i, st).entry),
    decreases toks.len() - i,
{
    if 0 <= i < toks.len() {
        let (st2, j) = spec_statement(toks, i, st);
        lemma_statement_wf(toks, i, st);
        lemma_statement_progress(toks, i, st);
        lemma_run_parser_wf(toks, j, st2);
    }
}

/// What a successful parse hands the assembler is well formed: every
/// instruction, and an identifier as the entry token.
pub proof fn lemma_parse_items_wf(toks: Seq<TokenModel>)
    ensures
        spec_parse_items(toks) matches Ok(pr) ==> texts_wf(pr.1) && pr.0.kind is Identifier,
{
    lemma_run_parser_wf(toks, 0, init_state());
}

proof fn lemma_text_views_push(ts: Seq<Text>, t: Text)
    ensures
        text_views(ts.push(t)) == text_views(ts).push(t@),
{
    assert(text_views(ts.push(t)) =~= text_views(ts).push(t@));
}

proof fn lemma_pe_views_push(es: Seq<ParserError>, e: ParserError)
    ensures
        pe_views(es.push(e)) == pe_views(es).push(e@),
{
    assert(pe_views(es.push(e)) =~= pe_views(es).push(e@));
}

fn substr_eq(a: &str, lit: &str) -> (r: bool)
    ensures
        r == (a@ == lit@),
{
    let left = String::from_str(a);
    let right = String::from_str(lit);
    left == right
}

/// The recursive-descent parser over a token list.
pub struct Parser {
    tokens: Vec<Token>,
    pos: usize,
    text_section: Vec<Text>,
    entry_point: Option<Token>,
    label: Option<Token>,
    errors: Vec<ParserError>,
}

impl Parser {
    /// The tokens being parsed, as models.
    pub closed spec fn toks(&self) -> Seq<TokenModel> {
        crate::lexer::token_views(self.tokens@)
    }

    /// The current position in the token list.
    pub closed spec fn at(&self) -> int {
        self.pos as int
    }

    /// The accumulated parse state, as a model.
    pub closed spec fn state(&self) -> ParseState {
        ParseState {
            entry: match self.entry_point {
                Some(t) => Some(t@),
                None => None,
            },
            label: match self.label {
                Some(t) => Some(t@),
                None => None,
            },
            texts: text_views(self.text_section@),
            errors: pe_views(self.errors@),
        }
    }

    /// The parser's invariant: the position is within the tokens and any
    /// pending label token is an identifier.
    pub closed spec fn wf(&self) -> bool {
        &&& self.pos <= self.tokens@.len()
        &&& (self.label matches Some(t) ==> t@.kind is Identifier)
    }

    /// A parser over `tokens`, at the start, with nothing accumulated.
    pub fn new(tokens: Vec<Token>) -> (r: Parser)
        ensures
            r.wf(),
            r.toks() == crate::lexer::token_views(tokens@),
            r.at() == 0,
            r.state() == init_state(),
    {
        let p = Parser {
            tokens,
            pos: 0,
            text_section: Vec::new(),
            entry_point: None,
            label: None,
            errors: Vec::new(),
        };
        proof {
            assert(text_views(p.text_section@) =~= Seq::<TextModel>::empty());
            assert(pe_views(p.errors@) =~= Seq::<ParserErrorModel>::empty());
        }
        p
    }

    /// Takes the next token, if any.
    fn next(&mut self) -> (r: Option<Token>)
        requires
            old(self).wf(),
        ensures
            final(self).wf(),
            final(self).toks() == old(self).toks(),
            final(self).state() == old(self).state(),
            old(self).at() < old(self).toks().len() ==> (r matches Some(t) && t@ == old(
                self,
            ).toks()[old(self).at()] && final(self).at() == old(self).at() + 1),
            old(self).at() >= old(self).toks().len() ==> r is None && final(self).at() == old(
                self,
            ).at(),
    {
        if self.pos < self.tokens.len() {
            let t = self.tokens[self.pos].clone();
            self.pos = self.pos + 1;
            proof {
                assert(t@ == old(self).toks()[old(self).at()]);
            }
            Some(t)
        } else {
            None
        }
    }

    /// `%N`: a register operand.
    fn parse_reg(&mut self) -> (r: Result<crate::instructions::Register, ParserError>)
        requires
            old(self).wf(),
        ensures
            final(self).wf(),
            final(self).toks() == old(self).toks(),
            final(self).state() == old(self).state(),
            ({
                let (sr, j) = spec_parse_reg(old(self).toks(), old(self).at());
                &&& final(self).at() == j
                &&& (r matches Ok(reg) ==> (sr matches Ok(b) && reg@ == b))
                &&& (r matches Err(e) ==> (sr matches Err(em) && e@ == em))
            }),
    {
        let t = match self.next() {
            Some(t) => t,
            None => {
                return Err(ParserError::UnexpectedEof);
            },
        };
        match t.kind {
            TokenKind::PercentSign => {},
            k => {
                return Err(ParserError::ExpectedPercentSign(k, t.span));
            },
        }
        let t2 = match self.next() {
            Some(t2) => t2,
            None => {
                return Err(ParserError::UnexpectedEof);
            },
        };
        match t2.kind {
            TokenKind::Number(v) => {
                if v >= 32 {
                    Err(ParserError::RegisterOutOfBounds(v, t2.span))
                } else {
                    Ok(crate::instructions::Register(v as u8))
                }
            },
            k => Err(ParserError::ExpectedNumber(k, t2.span)),
        }
    }

    /// `[TYPE]`: a bracketed type annotation.
    #[verifier::rlimit(60)]
    fn parse_type(&mut self) -> (r: Result<Type, ParserError>)
        requires
            old(self).wf(),
        ensures
            final(self).wf(),
            final(self).toks() == old(self).toks(),
            final(self).state() == old(self).state(),
            ({
                let (sr, j) = spec_parse_type(old(self).toks(), old(self).at());
                &&& final(self).at() == j
                &&& (r matches Ok(ty) ==> (sr matches Ok(t) && ty == t))
                &&& (r matches Err(e) ==> (sr matches Err(em) && e@ == em))
            }),
    {
        let t = match self.next() {
            Some(t) => t,
            None => {
                return Err(ParserError::UnexpectedEof);
            },
        };
        match t.kind {
            TokenKind::LeftBracket => {},
            k => {
                return Err(ParserError::ExpectedLeftBracket(k, t.span));
            },
        }
        let t2 = match self.next() {
            Some(t2) => t2,
            None => {
                return Err(ParserError::UnexpectedEof);
            },
        };
        let (name, nspan) = match t2.kind {
            TokenKind::Identifier(name) => (name, t2.span),
            k => {
                return Err(ParserError::ExpectedIdentifier(k, t2.span));
            },
        };
        let s = name.as_str();
        let l = s.unicode_len();
        let signed: Option<bool> = if l == 0 {
            None
        } else {
            let c0 = s.get_char(0);
            if c0 == 'i' || c0 == 'I' {
                Some(true)
            } else if c0 == 'u' || c0 == 'U' {
                Some(false)
            } else {
                None
            }
        };
        let width: Option<u8> = if l == 0 {
            None
        } else {
            let rest = s.substring_char(1, l);
            if substr_eq(rest, "8") {
                Some(8)
            } else if substr_eq(rest, "16") {
                Some(16)
            } else if substr_eq(rest, "32") {
                Some(32)
            } else if substr_eq(rest, "64") {
                Some(64)
            } else if substr_eq(rest, "128") {
                Some(128)
            } else {
                None
            }
        };
        proof {
            if l > 0 {
                assert(name@.subrange(1, name@.len() as int) == s@.subrange(1, s@.len() as int));
            }
        }
        // Everything but a missing sign letter is reported before the
        // closing bracket.
        let ty: Option<Type> = match (signed, width) {
            (Some(true), Some(w)) => {
                if w == 128 {
                    return Err(ParserError::InvalidImmType(TokenKind::Identifier(name), nspan));
                } else {
                    Some(Type::I(w))
                }
            },
            (Some(false), Some(w)) => Some(Type::U(w)),
            (Some(_), None) => {
                return Err(ParserError::InvalidImmType(TokenKind::Identifier(name), nspan));
            },
            (None, Some(_)) => None,
            (None, None) => {
                if l == 0 {
                    None
                } else {
                    return Err(ParserError::InvalidImmType(TokenKind::Identifier(name), nspan));
                }
            },
        };
        let t3 = match self.next() {
            Some(t3) => t3,
            None => {
                return Err(ParserError::UnexpectedEof);
            },
        };
        match t3.kind {
            TokenKind::RightBracket => {},
            k => {
                return Err(ParserError::ExpectedRightBracket(k, t3.span));
            },
        }
        match ty {
            Some(ty) => Ok(ty),
            None => Err(ParserError::ExpectedSign(TokenKind::Identifier(name), nspan)),
        }
    }

    /// An immediate literal, encoded to the type's width.
    fn parse_value(&mut self, ty: Type) -> (r: Result<Vec<u8>, ParserError>)
        requires
            old(self).wf(),
        ensures
            final(self).wf(),
            final(self).toks() == old(self).toks(),
            final(self).state() == old(self).state(),
            ({
                let (sr, j) = spec_parse_value(old(self).toks(), old(self).at(), ty);
                &&& final(self).at() == j
                &&& (r matches Ok(v) ==> (sr matches Ok(bs) && v@ == bs))
                &&& (r matches Err(e) ==> (sr matches Err(em) && e@ == em))
            }),
    {
        let t = match self.next() {
            Some(t) => t,
            None => {
                return Err(ParserError::UnexpectedEof);
            },
        };
        match t.kind {
            TokenKind::Number(v) => {
                match ty {
                    Type::Void => Err(
                        ParserError::InvalidImmType(TokenKind::Number(v), t.span),
                    ),
                    _ => Ok(crate::encoding::le_bytes_of(v, ty.width_bytes() as usize)),
                }
            },
            k => Err(ParserError::ExpectedNumber(k, t.span)),
        }
    }

    /// A label reference.
    fn parse_label(&mut self) -> (r: Result<Label, ParserError>)
        requires
            old(self).wf(),
        ensures
            final(self).wf(),
            final(self).toks() == old(self).toks(),
            final(self).state() == old(self).state(),
            ({
                let (sr, j) = spec_parse_label(old(self).toks(), old(self).at());
                &&& final(self).at() == j
                &&& (r matches Ok(l) ==> (sr matches Ok(lm) && l@ == lm))
                &&& (r matches Err(e) ==> (sr matches Err(em) && e@ == em))
            }),
    {
        let t = match self.next() {
            Some(t) => t,
            None => {
                return Err(ParserError::UnexpectedEof);
            },
        };
        match t.kind {
            TokenKind::Identifier(name) => Ok(Label { name, span: t.span, def: false }),
            k => Err(ParserError::ExpectedIdentifier(k, t.span)),
        }
    }

    /// The line-closing delimiter.
    fn consume_delimiter(&mut self) -> (r: Result<Span, ParserError>)
        requires
            old(self).wf(),
        ensures
            final(self).wf(),
            final(self).toks() == old(self).toks(),
            final(self).state() == old(self).state(),
            ({
                let (sr, j) = spec_consume_delim(old(self).toks(), old(self).at());
                &&& final(self).at() == j
                &&& (r matches Ok(sp) ==> (sr matches Ok(sm) && sp == sm))
                &&& (r matches Err(e) ==> (sr matches Err(em) && e@ == em))
            }),
    {
        let t = match self.next() {
            Some(t) => t,
            None => {
                return Err(ParserError::UnexpectedEof);
            },
        };
        match t.kind {
            TokenKind::Delimiter => Ok(t.span),
            k => Err(ParserError::ExpectedDelimiter(k, t.span)),
        }
    }

    /// Attaches the pending label, if any, and appends the instruction to
    /// the text section.
    fn push_instr(&mut self, opcode: Instruction, span: Span)
        requires
            old(self).wf(),
        ensures
            final(self).wf(),
            final(self).toks() == old(self).toks(),
            final(self).at() == old(self).at(),
            final(self).state() == state_push_text(old(self).state(), opcode@, span),
    {
        let text = match self.label.take() {
            Some(ltok) => Text::new_opcode_with_label(ltok, opcode, span),
            None => Text::new_opcode(opcode, span),
        };
        proof {
            lemma_text_views_push(self.text_section@, text);
        }
        self.text_section.push(text);
    }

    /// A statement of one register after a type annotation.
    fn parse_reg_1(&mut self, token: Token, opcode: Opcode) -> (r: Result<(), ParserError>)
        requires
            old(self).wf(),
        ensures
            final(self).wf(),
            final(self).toks() == old(self).toks(),
            ({
                let (out, j) = spec_stmt_reg1(old(self).toks(), old(self).at(), opcode, token@);
                &&& final(self).at() == j
                &&& (r is Ok ==> (out matches Ok(p) && final(self).state() == state_push_text(
                    old(self).state(),
                    p.0,
                    p.1,
                )))
                &&& (r matches Err(e) ==> (out matches Err(em) && e@ == em && final(self).state()
                    == old(self).state()))
            }),
    {
        let ty = match self.parse_type() {
            Ok(ty) => ty,
            Err(e) => {
                return Err(e);
            },
        };
        let reg = match self.parse_reg() {
            Ok(reg) => reg,
            Err(e) => {
                return Err(e);
            },
        };
        let end = match self.consume_delimiter() {
            Ok(sp) => sp,
            Err(e) => {
                return Err(e);
            },
        };
        let span = Span::merge(token.span, end);
        let instruction = Instruction { opcode, ty, data: crate::instructions::Data::Reg1(reg) };
        self.push_instr(instruction, span);
        Ok(())
    }

    /// A statement of two registers after a type annotation.
    fn parse_reg_2(&mut self, token: Token, opcode: Opcode) -> (r: Result<(), ParserError>)
        requires
            old(self).wf(),
        ensures
            final(self).wf(),
            final(self).toks() == old(self).toks(),
            ({
                let (out, j) = spec_stmt_reg2(old(self).toks(), old(self).at(), opcode, token@);
                &&& final(self).at() == j
                &&& (r is Ok ==> (out matches Ok(p) && final(self).state() == state_push_text(
                    old(self).state(),
                    p.0,
                    p.1,
                )))
                &&& (r matches Err(e) ==> (out matches Err(em) && e@ == em && final(self).state()
                    == old(self).state()))
            }),
    {
        let ty = match self.parse_type() {
            Ok(ty) => ty,
            Err(e) => {
                return Err(e);
            },
        };
        let des = match self.parse_reg() {
            Ok(reg) => reg,
            Err(e) => {
                return Err(e);
            },
        };
        let src = match self.parse_reg() {
            Ok(reg) => reg,
            Err(e) => {
                return Err(e);
            },
        };
        let end = match self.consume_delimiter() {
            Ok(sp) => sp,
            Err(e) => {
                return Err(e);
            },
        };
        let span = Span::merge(token.span, end);
        let instruction = Instruction {
            opcode,
            ty,
            data: crate::instructions::Data::Reg2(des, src),
        };
        self.push_instr(instruction, span);
        Ok(())
    }

    /// A statement of three registers after a type annotation.
    fn parse_reg_3(&mut self, token: Token, opcode: Opcode) -> (r: Result<(), ParserError>)
        requires
            old(self).wf(),
        ensures
            final(self).wf(),
            final(self).toks() == old(self).toks(),
            ({
                let (out, j) = spec_stmt_reg3(old(self).toks(), old(self).at(), opcode, token@);
                &&& final(self).at() == j
                &&& (r is Ok ==> (out matches Ok(p) && final(self).state() == state_push_text(
                    old(self).state(),
                    p.0,
                    p.1,
                )))
                &&& (r matches Err(e) ==> (out matches Err(em) && e@ == em && final(self).state()
                    == old(self).state()))
            }),
    {
        let ty = match self.parse_type() {
            Ok(ty) => ty,
            Err(e) => {
                return Err(e);
            },
        };
        let des = match self.parse_reg() {
            Ok(reg) => reg,
            Err(e) => {
                return Err(e);
            },
        };
        let lhs = match self.parse_reg() {
            Ok(reg) => reg,
            Err(e) => {
                return Err(e);
            },
        };
        let rhs = match self.parse_reg() {
            Ok(reg) => reg,
            Err(e) => {
                return Err(e);
            },
        };
        let end = match self.consume_delimiter() {
            Ok(sp) => sp,
            Err(e) => {
                return Err(e);
            },
        };
        let span = Span::merge(token.span, end);
        let instruction = Instruction {
            opcode,
            ty,
            data: crate::instructions::Data::Reg3(des, lhs, rhs),
        };
        self.push_instr(instruction, span);
        Ok(())
    }

    /// A statement of a register and an immediate after a type annotation.
    fn parse_reg_imm(&mut self, token: Token, opcode: Opcode) -> (r: Result<(), ParserError>)
        requires
            old(self).wf(),
        ensures
            final(self).wf(),
            final(self).toks() == old(self).toks(),
            ({
                let (out, j) = spec_stmt_imm(old(self).toks(), old(self).at(), opcode, token@);
                &&& final(self).at() == j
                &&& (r is Ok ==> (out matches Ok(p) && final(self).state() == state_push_text(
                    old(self).state(),
                    p.0,
                    p.1,
                )))
                &&& (r matches Err(e) ==> (out matches Err(em) && e@ == em && final(self).state()
                    == old(self).state()))
            }),
    {
        let ty = match self.parse_type() {
            Ok(ty) => ty,
            Err(e) => {
                return Err(e);
            },
        };
        let reg = match self.parse_reg() {
            Ok(reg) => reg,
            Err(e) => {
                return Err(e);
            },
        };
        let value = match self.parse_value(ty) {
            Ok(v) => v,
            Err(e) => {
                return Err(e);
            },
        };
        let end = match self.consume_delimiter() {
            Ok(sp) => sp,
            Err(e) => {
                return Err(e);
            },
        };
        let span = Span::merge(token.span, end);
        let instruction = Instruction {
            opcode,
            ty,
            data: crate::instructions::Data::Imm(reg, crate::instructions::Imm(value)),
        };
        self.push_instr(instruction, span);
        Ok(())
    }

    /// A statement of no operands: only the delimiter follows.
    fn parse_no_args(&mut self, token: Token, opcode: Opcode) -> (r: Result<(), ParserError>)
        requires
            old(self).wf(),
        ensures
            final(self).wf(),
            final(self).toks() == old(self).toks(),
            ({
                let (out, j) = spec_stmt_noargs(old(self).toks(), old(self).at(), opcode, token@);
                &&& final(self).at() == j
                &&& (r is Ok ==> (out matches Ok(p) && final(self).state() == state_push_text(
                    old(self).state(),
                    p.0,
                    p.1,
                )))
                &&& (r matches Err(e) ==> (out matches Err(em) && e@ == em && final(self).state()
                    == old(self).state()))
            }),
    {
        let end = match self.consume_delimiter() {
            Ok(sp) => sp,
            Err(e) => {
                return Err(e);
            },
        };
        let span = Span::merge(token.span, end);
        let instruction = Instruction {
            opcode,
            ty: Type::Void,
            data: crate::instructions::Data::NoArgs,
        };
        self.push_instr(instruction, span);
        Ok(())
    }

    /// A statement of a label target: `call NAME`.
    fn parse_call(&mut self, token: Token, opcode: Opcode) -> (r: Result<(), ParserError>)
        requires
            old(self).wf(),
        ensures
            final(self).wf(),
            final(self).toks() == old(self).toks(),
            ({
                let (out, j) = spec_stmt_label(old(self).toks(), old(self).at(), opcode, token@);
                &&& final(self).at() == j
                &&& (r is Ok ==> (out matches Ok(p) && final(self).state() == state_push_text(
                    old(self).state(),
                    p.0,
                    p.1,
                )))
                &&& (r matches Err(e) ==> (out matches Err(em) && e@ == em && final(self).state()
                    == old(self).state()))
            }),
    {
        let label = match self.parse_label() {
            Ok(l) => l,
            Err(e) => {
                return Err(e);
            },
        };
        let end = match self.consume_delimiter() {
            Ok(sp) => sp,
            Err(e) => {
                return Err(e);
            },
        };
        let span = Span::merge(token.span, end);
        let instruction = Instruction {
            opcode,
            ty: Type::Void,
            data: crate::instructions::Data::Label(crate::instructions::Target::Sym(label)),
        };
        self.push_instr(instruction, span);
        Ok(())
    }

    /// A statement of two registers and a label target: `jne %A %B NAME`.
    fn parse_reg_2_label(&mut self, token: Token, opcode: Opcode) -> (r: Result<(), ParserError>)
        requires
            old(self).wf(),
        ensures
            final(self).wf(),
            final(self).toks() == old(self).toks(),
            ({
                let (out, j) = spec_stmt_reg2label(
                    old(self).toks(),
                    old(self).at(),
                    opcode,
                    token@,
                );
                &&& final(self).at() == j
                &&& (r is Ok ==> (out matches Ok(p) && final(self).state() == state_push_text(
                    old(self).state(),
                    p.0,
                    p.1,
                )))
                &&& (r matches Err(e) ==> (out matches Err(em) && e@ == em && final(self).state()
                    == old(self).state()))
            }),
    {
        let lhs = match self.parse_reg() {
            Ok(reg) => reg,
            Err(e) => {
                return Err(e);
            },
        };
        let rhs = match self.parse_reg() {
            Ok(reg) => reg,
            Err(e) => {
                return Err(e);
            },
        };
        let label = match self.parse_label() {
            Ok(l) => l,
            Err(e) => {
                return Err(e);
            },
        };
        let end = match self.consume_delimiter() {
            Ok(sp) => sp,
            Err(e) => {
                return Err(e);
            },
        };
        let span = Span::merge(token.span, end);
        let instruction = Instruction {
            opcode,
            ty: Type::Void,
            data: crate::instructions::Data::Reg2Label(
                lhs,
                rhs,
                crate::instructions::Target::Sym(label),
            ),
        };
        self.push_instr(instruction, span);
        Ok(())
    }

    /// `.entry NAME` or an unknown directive; the outcome, errors
    /// included, is folded into the state exactly as
    /// [`spec_stmt_directive`] says.
    fn parse_directive(&mut self, ptok: Token)
        requires
            old(self).wf(),
        ensures
            final(self).wf(),
            final(self).toks() == old(self).toks(),
            ({
                let (st2, j) = spec_stmt_directive(
                    old(self).toks(),
                    old(self).at(),
                    old(self).state(),
                    ptok@,
                );
                &&& final(self).at() == j
                &&& final(self).state() == st2
            }),
    {
        let t = match self.next() {
            None => {
                self.push_error(ParserError::ExpectedIdentifier(ptok.kind, ptok.span));
                return ;
            },
            Some(t) => t,
        };
        let name = match t.kind {
            TokenKind::Identifier(name) => name,
            k => {
                self.push_error(ParserError::ExpectedIdentifier(k, t.span));
                return ;
            },
        };
        if !substr_eq(name.as_str(), "entry") {
            self.push_error(ParserError::UnknownDirective(name, t.span));
            return ;
        }
        let etok = match self.next() {
            None => {
                self.push_error(ParserError::UnexpectedEof);
                return ;
            },
            Some(t2) => t2,
        };
        match etok.kind {
            TokenKind::Identifier(_) => {},
            k => {
                self.push_error(ParserError::ExpectedIdentifier(k, etok.span));
                return ;
            },
        }
        self.entry_point = Some(etok);
        match self.consume_delimiter() {
            Ok(_) => {},
            Err(e) => {
                self.push_error(e);
            },
        }
    }

    /// Records an error in the batch.
    fn push_error(&mut self, e: ParserError)
        requires
            old(self).wf(),
        ensures
            final(self).wf(),
            final(self).toks() == old(self).toks(),
            final(self).at() == old(self).at(),
            final(self).state() == state_push_error(old(self).state(), e@),
    {
        proof {
            lemma_pe_views_push(self.errors@, e);
        }
        self.errors.push(e);
    }

    /// Dispatches one top-level statement; the token just consumed is at
    /// `at() - 1`.
    #[verifier::rlimit(100)]
    fn parse_statement(&mut self, token: Token)
        requires
            old(self).wf(),
            1 <= old(self).at() <= old(self).toks().len(),
            token@ == old(self).toks()[old(self).at() - 1],
        ensures
            final(self).wf(),
            final(self).toks() == old(self).toks(),
            final(self).state() == spec_statement(
                old(self).toks(),
                old(self).at() - 1,
                old(self).state(),
            ).0,
            final(self).at() == spec_statement(
                old(self).toks(),
                old(self).at() - 1,
                old(self).state(),
            ).1,
    {
        let span = token.span;
        match token.kind {
            TokenKind::Period => {
                let t = Token { kind: TokenKind::Period, span };
                self.parse_directive(t);
            },
            TokenKind::KeywordLoad => {
                let t = Token { kind: TokenKind::KeywordLoad, span };
                match self.parse_reg_imm(t, Opcode::Load) {
                    Ok(()) => {},
                    Err(e) => self.push_error(e),
                }
            },
            TokenKind::KeywordStore => {
                let t = Token { kind: TokenKind::KeywordStore, span };
                match self.parse_reg_2(t, Opcode::Store) {
                    Ok(()) => {},
                    Err(e) => self.push_error(e),
                }
            },
            TokenKind::KeywordCopy => {
                let t = Token { kind: TokenKind::KeywordCopy, span };
                match self.parse_reg_2(t, Opcode::Copy) {
                    Ok(()) => {},
                    Err(e) => self.push_error(e),
                }
            },
            TokenKind::KeywordAloc => {
                let t = Token { kind: TokenKind::KeywordAloc, span };
                match self.parse_reg_2(t, Opcode::Aloc) {
                    Ok(()) => {},
                    Err(e) => self.push_error(e),
                }
            },
            TokenKind::KeywordPush => {
                let t = Token { kind: TokenKind::KeywordPush, span };
                match self.parse_reg_1(t, Opcode::Push) {
                    Ok(()) => {},
                    Err(e) => self.push_error(e),
                }
            },
            TokenKind::KeywordPop => {
                let t = Token { kind: TokenKind::KeywordPop, span };
                match self.parse_reg_1(t, Opcode::Pop) {
                    Ok(()) => {},
                    Err(e) => self.push_error(e),
                }
            },
            TokenKind::KeywordAdd => {
                let t = Token { kind: TokenKind::KeywordAdd, span };
                match self.parse_reg_3(t, Opcode::Add) {
                    Ok(()) => {},
                    Err(e) => self.push_error(e),
                }
            },
            TokenKind::KeywordSub => {
                let t = Token { kind: TokenKind::KeywordSub, span };
                match self.parse_reg_3(t, Opcode::Sub) {
                    Ok(()) => {},
                    Err(e) => self.push_error(e),
                }
            },
            TokenKind::KeywordDiv => {
                let t = Token { kind: TokenKind::KeywordDiv, span };
                match self.parse_reg_3(t, Opcode::Div) {
                    Ok(()) => {},
                    Err(e) => self.push_error(e),
                }
            },
            TokenKind::KeywordMul => {
                let t = Token { kind: TokenKind::KeywordMul, span };
                match self.parse_reg_3(t, Opcode::Mul) {
                    Ok(()) => {},
                    Err(e) => self.push_error(e),
                }
            },
            TokenKind::KeywordEq => {
                let t = Token { kind: TokenKind::KeywordEq, span };
                match self.parse_reg_3(t, Opcode::Eq) {
                    Ok(()) => {},
                    Err(e) => self.push_error(e),
                }
            },
            TokenKind::KeywordInc => {
                let t = Token { kind: TokenKind::KeywordInc, span };
                match self.parse_reg_1(t, Opcode::Inc) {
                    Ok(()) => {},
                    Err(e) => self.push_error(e),
                }
            },
            TokenKind::KeywordJne => {
                let t = Token { kind: TokenKind::KeywordJne, span };
                match self.parse_reg_2_label(t, Opcode::Jne) {
                    Ok(()) => {},
                    Err(e) => self.push_error(e),
                }
            },
            TokenKind::KeywordHult => {
                let t = Token { kind: TokenKind::KeywordHult, span };
                match self.parse_no_args(t, Opcode::Hult) {
                    Ok(()) => {},
                    Err(e) => self.push_error(e),
                }
            },
            TokenKind::KeywordPrintReg => {
                let t = Token { kind: TokenKind::KeywordPrintReg, span };
                match self.parse_reg_1(t, Opcode::PrintReg) {
                    Ok(()) => {},
                    Err(e) => self.push_error(e),
                }
            },
            TokenKind::KeywordCall => {
                let t = Token { kind: TokenKind::KeywordCall, span };
                match self.parse_call(t, Opcode::Call) {
                    Ok(()) => {},
                    Err(e) => self.push_error(e),
                }
            },
            TokenKind::KeywordAnd => {
                let t = Token { kind: TokenKind::KeywordAnd, span };
                match self.parse_reg_3(t, Opcode::And) {
                    Ok(()) => {},
                    Err(e) => self.push_error(e),
                }
            },
            TokenKind::KeywordOr => {
                let t = Token { kind: TokenKind::KeywordOr, span };
                match self.parse_reg_3(t, Opcode::Or) {
                    Ok(()) => {},
                    Err(e) => self.push_error(e),
                }
            },
            TokenKind::KeywordShr => {
                let t = Token { kind: TokenKind::KeywordShr, span };
                match self.parse_reg_3(t, Opcode::Shr) {
                    Ok(()) => {},
                    Err(e) => self.push_error(e),
                }
            },
            TokenKind::KeywordReturn => {
                let t = Token { kind: TokenKind::KeywordReturn, span };
                match self.parse_no_args(t, Opcode::Return) {
                    Ok(()) => {},
                    Err(e) => self.push_error(e),
                }
            },
            TokenKind::KeywordSyscall => {
                let t = Token { kind: TokenKind::KeywordSyscall, span };
                match self.parse_no_args(t, Opcode::Syscall) {
                    Ok(()) => {},
                    Err(e) => self.push_error(e),
                }
            },
            TokenKind::Identifier(name) => {
                let colon_next = self.pos < self.tokens.len() && matches!(
                    &self.tokens[self.pos].kind,
                    TokenKind::Colon,
                );
                if colon_next {
                    self.label = Some(Token { kind: TokenKind::Identifier(name), span });
                    self.pos = self.pos + 1;
                } else {
                    self.push_error(
                        ParserError::UnexpectedToken(TokenKind::Identifier(name), span),
                    );
                }
            },
            TokenKind::Delimiter => {},
            k => {
                self.push_error(ParserError::UnexpectedToken(k, span));
            },
        }
    }

    /// Parses the whole token list: the entry item and the text section,
    /// or every error the run collected.
    pub fn parse(self) -> (r: Result<Vec<Item>, Vec<ParserError>>)
        requires
            self.wf(),
            self.at() == 0,
            self.state() == init_state(),
        ensures
            ({
                let sp = spec_parse_items(self.toks());
                &&& (r matches Ok(items) ==> (sp matches Ok(pr) && items@.len() == 2 && (items@[0]
                    matches Item::EntryPoint(t) && t@ == pr.0) && (items@[1] matches Item::Text(ts)
                    && text_views(ts@) == pr.1)))
                &&& (r matches Err(es) ==> (sp matches Err(ems) && pe_views(es@) == ems))
            }),
    {
        let ghost toks0 = self.toks();
        let mut p = self;
        while p.pos < p.tokens.len()
            invariant
                p.wf(),
                p.toks() == toks0,
                p.at() <= toks0.len(),
                run_parser(toks0, 0, init_state()) == run_parser(toks0, p.at(), p.state()),
            decreases p.toks().len() - p.at(),
        {
            let ghost i0 = p.at();
            let ghost st0 = p.state();
            let token = p.tokens[p.pos].clone();
            p.pos = p.pos + 1;
            proof {
                assert(token@ == toks0[i0]);
            }
            p.parse_statement(token);
            proof {
                lemma_statement_progress(toks0, i0, st0);
            }
        }
        proof {
            assert(run_parser(toks0, p.at(), p.state()) == p.state());
        }
        if p.entry_point.is_none() {
            p.push_error(ParserError::MissingEntryPoint);
        }
        if p.errors.len() > 0 {
            return Err(p.errors);
        }
        let entry = match p.entry_point {
            Some(t) => t,
            None => {
                // an absent entry point was turned into an error above
                return Err(p.errors);
            },
        };
        let mut items: Vec<Item> = Vec::new();
        items.push(Item::EntryPoint(entry));
        items.push(Item::Text(p.text_section));
        Ok(items)
    }
}

/// Lexes and parses a source text into its entry item and text section.
/// The token stream and the outcome are pinned by
/// [`crate::lexer::spec_lex`] and [`spec_parse_items`]; a parse failure
/// carries the whole error batch.
pub fn parse(src: &str) -> (r: Result<Vec<Item>, BitBoxError>)
    ensures
        r matches Ok(items) ==> (crate::lexer::spec_lex(src@) matches Ok(toks) && (spec_parse_items(
            toks,
        ) matches Ok(pr) && items@.len() == 2 && (items@[0] matches Item::EntryPoint(t) && t@
            == pr.0) && (items@[1] matches Item::Text(ts) && text_views(ts@) == pr.1))),
        r matches Err(e) ==> (match crate::lexer::spec_lex(src@) {
            Ok(toks) => spec_parse_items(toks) matches Err(ems) && (e matches BitBoxError::Parser(
                es,
            ) && pe_views(es@) == ems),
            Err(e2) => e == e2,
        }),
{
    let tokens = match crate::lexer::lex(src) {
        Ok(ts) => ts,
        Err(e) => {
            return Err(e);
        },
    };
    let parser = Parser::new(tokens);
    match parser.parse() {
        Ok(items) => Ok(items),
        Err(errors) => Err(BitBoxError::Parser(errors)),
    }
}

} // verus!
