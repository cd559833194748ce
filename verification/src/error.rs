//! The error model shared by the lexer, the assembler and the virtual
//! machine, and the human-readable report format.

use vstd::prelude::*;

use crate::lexer::Span;
use vstd::string::StrSliceExecFns;
use vstd::string::StringExecFns;
use crate::parser::ParserError;

verus! {

/// Everything that can go wrong across the toolchain.
///
/// Lexing fails fast with `UnexpectedCharacter` or `InvalidNumber`; parsing
/// collects its errors into one `Parser` batch; assembly fails on an
/// unresolved label or an oversized text section; the virtual machine
/// aborts on a corrupt image or a faulting instruction.
#[derive(Debug)]
pub enum BitBoxError {
    /// A source character that starts no token.
    UnexpectedCharacter(char, Span),
    /// A numeric literal with no digits or one above the 64-bit range.
    InvalidNumber(Span),
    /// The batch of errors the parser collected.
    Parser(Vec<ParserError>),
    /// A `call` or `jne` target, or the entry symbol, that no label defines.
    UnknownLabel(String, Span),
    /// The encoded text section would not fit the 32-bit header fields.
    ProgramTooLarge,
    /// A byte at the program counter that is no opcode.
    InvalidOpcode(u8),
    /// A type byte that is no valid type encoding.
    InvalidType(u8),
    /// A register operand of 32 or above.
    RegisterOutOfBounds(u8, Span),
    /// `pop` or `return` on an empty stack.
    StackUnderflow,
    /// `div` with a zero divisor.
    DivisionByZero,
    /// A heap access outside the allocated heap, or growth past the
    /// machine's address range.
    HeapOutOfBounds,
    /// A fetch outside the image, or a jump target outside the machine's
    /// address range.
    PcOutOfBounds,
    /// A `syscall` selector that names no host call.
    InvalidSyscall(u64),
    /// An image too short to hold the 64-byte header.
    InvalidImage,
    /// The run loop's step budget ran out; a machine limit no real
    /// workload reaches.
    StepLimitExceeded,
}

/// The character of one decimal digit.
pub open spec fn digit_char(d: nat) -> char {
    if d == 0 {
        '0'
    } else if d == 1 {
        '1'
    } else if d == 2 {
        '2'
    } else if d == 3 {
        '3'
    } else if d == 4 {
        '4'
    } else if d == 5 {
        '5'
    } else if d == 6 {
        '6'
    } else if d == 7 {
        '7'
    } else if d == 8 {
        '8'
    } else {
        '9'
    }
}

/// The decimal digits of `n`, as characters.
pub open spec fn dec_chars(n: nat) -> Seq<char>
    decreases n,
{
    if n < 10 {
        seq![digit_char(n)]
    } else {
        dec_chars(n / 10) + seq![digit_char(n % 10)]
    }
}

/// `n` spaces.
pub open spec fn space_chars(n: nat) -> Seq<char> {
    Seq::new(n, |i: int| ' ')
}

/// `n` carets.
pub open spec fn caret_chars(n: nat) -> Seq<char> {
    Seq::new(n, |i: int| '^')
}

/// The width of a span's underline: the columns it covers, one at least.
pub open spec fn caret_width(span: Span) -> nat {
    if span.col_end > span.col_start {
        (span.col_end - span.col_start) as nat
    } else {
        1
    }
}

/// The position where the line after position `p` begins (the end of the
/// text when there is none).
pub open spec fn next_line_pos(s: Seq<char>, p: int) -> int {
    let nl = crate::lexer::scan_comment_end(s, p);
    if nl + 1 > s.len() {
        s.len() as int
    } else {
        nl + 1
    }
}

/// The position where line `row` begins.
pub open spec fn line_pos(s: Seq<char>, row: int) -> int
    decreases row,
{
    if row <= 0 {
        0
    } else {
        next_line_pos(s, line_pos(s, row - 1))
    }
}

/// Line `row` of the text (empty past the last line).
pub open spec fn spec_line(s: Seq<char>, row: int) -> Seq<char> {
    s.subrange(line_pos(s, row), crate::lexer::scan_comment_end(s, line_pos(s, row)))
}

/// Specification-level report contents.
pub struct ReportModel {
    pub message: Seq<char>,
    pub filename: Seq<char>,
    pub row: usize,
    pub col: usize,
    pub problem_line: Seq<char>,
    pub note: Option<Seq<char>>,
    pub underline: Seq<char>,
}

/// The padding that left-aligns the row number to three columns.
pub open spec fn pad3(l: nat) -> nat {
    if l >= 3 {
        0
    } else {
        (3 - l) as nat
    }
}

/// The text a report renders to: position and file, the message, the
/// offending line with its underline, and the note if one was given.
pub open spec fn spec_report(m: ReportModel) -> Seq<char> {
    dec_chars(m.row as nat) + seq![':'] + dec_chars(m.col as nat) + seq![':'] + m.filename
        + seq!['\n'] + (if m.message.len() > 0 {
        " --> "@ + m.message + seq!['\n']
    } else {
        Seq::empty()
    }) + dec_chars(m.row as nat) + space_chars(pad3(dec_chars(m.row as nat).len())) + "| "@
        + m.problem_line + seq!['\n'] + "   | "@ + m.underline + seq!['\n'] + (match m.note {
        Some(n) => "   | = note: "@ + n + seq!['\n'],
        None => Seq::empty(),
    })
}

/// The fresh report a builder starts from: position, line and underline
/// derived from the span, no message, no note.
pub open spec fn fresh_report(filename: Seq<char>, src: Seq<char>, span: Span) -> ReportModel {
    ReportModel {
        message: Seq::empty(),
        filename,
        row: span.row_start,
        col: span.col_start,
        problem_line: spec_line(src, span.row_start as int),
        note: None,
        underline: space_chars(span.col_start as nat) + caret_chars(caret_width(span)),
    }
}

/// Builds one diagnostic: a position header, the message, the offending
/// source line and a caret underline beneath it.
pub struct ReportBuilder {
    message: String,
    filename: String,
    row: usize,
    col: usize,
    problem_line: String,
    note: Option<String>,
    underline: String,
}

impl View for ReportBuilder {
    type V = ReportModel;

    closed spec fn view(&self) -> ReportModel {
        ReportModel {
            message: self.message@,
            filename: self.filename@,
            row: self.row,
            col: self.col,
            problem_line: self.problem_line@,
            note: match &self.note {
                Some(n) => Some(n@),
                None => None,
            },
            underline: self.underline@,
        }
    }
}

/// The first position at or past `from` holding a line break.
fn next_newline(src: &str, from: usize, n: usize) -> (j: usize)
    requires
        n == src@.len(),
        from <= n,
    ensures
        from <= j <= n,
        j == crate::lexer::scan_comment_end(src@, from as int),
{
    let mut j = from;
    while j < n && src.get_char(j) != '\n'
        invariant
            from <= j <= n,
            n == src@.len(),
            crate::lexer::scan_comment_end(src@, from as int) == crate::lexer::scan_comment_end(
                src@,
                j as int,
            ),
        decreases n - j,
    {
        j = j + 1;
    }
    j
}

/// Extracts line `row` of the text (empty past the last line).
fn extract_line(src: &str, row: usize) -> (r: String)
    ensures
        r@ == spec_line(src@, row as int),
{
    let n = src.unicode_len();
    let mut start: usize = 0;
    let mut k: usize = 0;
    while k < row
        invariant
            k <= row,
            start <= n,
            n == src@.len(),
            start == line_pos(src@, k as int),
        decreases row - k,
    {
        let nl = next_newline(src, start, n);
        start = if nl >= n {
            n
        } else {
            nl + 1
        };
        k = k + 1;
    }
    let end = next_newline(src, start, n);
    src.substring_char(start, end).to_owned()
}

/// Renders `v` in decimal.
fn dec_string(v: u64) -> (r: String)
    ensures
        r@ == dec_chars(v as nat),
{
    let mut tail: Vec<u64> = Vec::new();
    let mut rest: u64 = v;
    while rest >= 10
        invariant
            dec_chars(v as nat) == dec_chars(rest as nat) + digit_seq_rev(tail@),
        decreases rest,
    {
        let ghost before = tail@;
        tail.push(rest % 10);
        rest = rest / 10;
        proof {
            assert(tail@.drop_last() =~= before);
            assert(digit_seq_rev(tail@) =~= seq![digit_char((tail@.last() % 10) as nat)]
                + digit_seq_rev(before));
            assert(dec_chars(v as nat) =~= dec_chars(rest as nat) + digit_seq_rev(tail@));
        }
    }
    let mut out = String::new();
    append_digit(&mut out, rest % 10);
    assert(out@ =~= dec_chars(rest as nat));
    let mut k: usize = tail.len();
    while k > 0
        invariant
            k <= tail@.len(),
            out@ == dec_chars(rest as nat) + digit_seq_rev(
                tail@.subrange(k as int, tail@.len() as int),
            ),
        decreases k,
    {
        k = k - 1;
        append_digit(&mut out, tail[k] % 10);
        proof {
            let ds = tail@.subrange(k as int, tail@.len() as int);
            lemma_digit_seq_rev_front(ds);
            assert(ds.subrange(1, ds.len() as int) =~= tail@.subrange(
                k as int + 1,
                tail@.len() as int,
            ));
            assert(out@ =~= dec_chars(rest as nat) + digit_seq_rev(
                tail@.subrange(k as int, tail@.len() as int),
            ));
        }
    }
    proof {
        assert(tail@.subrange(0, tail@.len() as int) =~= tail@);
    }
    out
}

/// The digit characters a pushed-digit list denotes, last digit first.
pub open spec fn digit_seq_rev(ds: Seq<u64>) -> Seq<char>
    decreases ds.len(),
{
    if ds.len() == 0 {
        Seq::empty()
    } else {
        seq![digit_char((ds.last() % 10) as nat)] + digit_seq_rev(ds.drop_last())
    }
}

/// Peeling the first pushed digit off the list appends its character.
proof fn lemma_digit_seq_rev_front(ds: Seq<u64>)
    requires
        ds.len() > 0,
    ensures
        digit_seq_rev(ds) == digit_seq_rev(ds.subrange(1, ds.len() as int)) + seq![
            digit_char((ds[0] % 10) as nat),
        ],
    decreases ds.len(),
{
    if ds.len() == 1 {
        assert(ds.subrange(1, 1) =~= Seq::<u64>::empty());
        assert(ds.drop_last() =~= Seq::<u64>::empty());
        assert(digit_seq_rev(Seq::<u64>::empty()) == Seq::<char>::empty());
        assert(ds.last() == ds[0]);
        assert(digit_seq_rev(ds) =~= digit_seq_rev(ds.subrange(1, 1)) + seq![
            digit_char((ds[0] % 10) as nat),
        ]);
    } else {
        lemma_digit_seq_rev_front(ds.drop_last());
        assert(ds.drop_last().subrange(1, ds.drop_last().len() as int) =~= ds.subrange(
            1,
            ds.len() as int,
        ).drop_last());
        assert(ds.subrange(1, ds.len() as int).last() == ds.last());
        assert(digit_seq_rev(ds) =~= digit_seq_rev(ds.subrange(1, ds.len() as int)) + seq![
            digit_char((ds[0] % 10) as nat),
        ]);
    }
}

/// Appends one decimal digit.
fn append_digit(out: &mut String, d: u64)
    requires
        d < 10,
    ensures
        final(out)@ == old(out)@ + seq![digit_char(d as nat)],
{
    let lit: &str = match d {
        0 => "0",
        1 => "1",
        2 => "2",
        3 => "3",
        4 => "4",
        5 => "5",
        6 => "6",
        7 => "7",
        8 => "8",
        _ => "9",
    };
    proof {
        reveal_strlit("0");
        reveal_strlit("1");
        reveal_strlit("2");
        reveal_strlit("3");
        reveal_strlit("4");
        reveal_strlit("5");
        reveal_strlit("6");
        reveal_strlit("7");
        reveal_strlit("8");
        reveal_strlit("9");
    }
    out.append(lit);
    proof {
        assert(final(out)@ =~= old(out)@ + seq![digit_char(d as nat)]);
    }
}

/// Appends `n` copies of a one-character string.
fn append_repeat(out: &mut String, lit: &str, n: usize)
    requires
        lit@.len() == 1,
    ensures
        final(out)@ == old(out)@ + Seq::new(n as nat, |i: int| lit@[0]),
{
    let mut k: usize = 0;
    while k < n
        invariant
            k <= n,
            out@ =~= old(out)@ + Seq::new(k as nat, |i: int| lit@[0]),
            lit@.len() == 1,
        decreases n - k,
    {
        out.append(lit);
        k = k + 1;
        proof {
            assert(out@ =~= old(out)@ + Seq::new(k as nat, |i: int| lit@[0]));
        }
    }
}

impl ReportBuilder {
    /// A report for the source region `span` of `src` in `filename`,
    /// with no message yet.
    pub fn new(filename: &str, src: &str, span: &Span) -> (r: ReportBuilder)
        ensures
            r@ == fresh_report(filename@, src@, *span),
    {
        let problem_line = extract_line(src, span.row_start);
        let mut underline = String::new();
        proof {
            reveal_strlit(" ");
            reveal_strlit("^");
        }
        append_repeat(&mut underline, " ", span.col_start);
        let width = if span.col_end > span.col_start {
            span.col_end - span.col_start
        } else {
            1
        };
        append_repeat(&mut underline, "^", width);
        proof {
            assert(underline@ =~= space_chars(span.col_start as nat) + caret_chars(
                caret_width(*span),
            ));
        }
        ReportBuilder {
            message: String::new(),
            filename: String::from_str(filename),
            row: span.row_start,
            col: span.col_start,
            problem_line,
            note: None,
            underline,
        }
    }

    /// Sets the headline message.
    pub fn with_message(self, message: &str) -> (r: Self)
        ensures
            r@ == (ReportModel { message: message@, ..self@ }),
    {
        ReportBuilder { message: String::from_str(message), ..self }
    }

    /// Attaches a note under the underline.
    pub fn with_note(self, note: &str) -> (r: Self)
        ensures
            r@ == (ReportModel { note: Some(note@), ..self@ }),
    {
        ReportBuilder { note: Some(String::from_str(note)), ..self }
    }

    /// Renders the report.
    pub fn build(&self) -> (r: String)
        ensures
            r@ == spec_report(self@),
    {
        let mut out = String::new();
        let row_str = dec_string(self.row as u64);
        out.append(row_str.as_str());
        out.append(":");
        let col_str = dec_string(self.col as u64);
        out.append(col_str.as_str());
        out.append(":");
        out.append(self.filename.as_str());
        out.append("\n");
        if !self.message.as_str().is_empty() {
            out.append(" --> ");
            out.append(self.message.as_str());
            out.append("\n");
        }
        out.append(row_str.as_str());
        let row_len = row_str.as_str().unicode_len();
        let pad = if row_len >= 3 {
            0
        } else {
            3 - row_len
        };
        proof {
            reveal_strlit(" ");
        }
        append_repeat(&mut out, " ", pad);
        out.append("| ");
        out.append(self.problem_line.as_str());
        out.append("\n");
        out.append("   | ");
        out.append(self.underline.as_str());
        out.append("\n");
        match &self.note {
            Some(note) => {
                out.append("   | = note: ");
                out.append(note.as_str());
                out.append("\n");
            },
            None => {},
        }
        proof {
            reveal_strlit(":");
            reveal_strlit("\n");
            reveal_strlit(" ");
            assert(out@ =~= spec_report(self@));
        }
        out
    }
}

/// The headline of a parse error.
pub open spec fn pe_message(e: ParserError) -> Seq<char> {
    match e {
        ParserError::UnknownDirective(_, _) => "unknown directive"@,
        ParserError::MissingEntryPoint => "missing entry point"@,
        ParserError::ExpectedIdentifier(_, _) => "expected identifier"@,
        ParserError::ExpectedNumber(_, _) => "expected number"@,
        ParserError::ExpectedDelimiter(_, _) => "expected delimiter"@,
        ParserError::ExpectedPercentSign(_, _) => "expected percent sign"@,
        ParserError::ExpectedColon(_, _) => "expected colon"@,
        ParserError::UnexpectedEof => "unexpected end of input"@,
        ParserError::ExpectedRightBracket(_, _) => "expected right bracket"@,
        ParserError::ExpectedLeftBracket(_, _) => "expected left bracket"@,
        ParserError::ExpectedSign(_, _) => "expected sign"@,
        ParserError::InvalidImmType(_, _) => "invalid immediate type"@,
        ParserError::RegisterOutOfBounds(_, _) => "register out of bounds"@,
        ParserError::UnexpectedToken(_, _) => "unexpected token"@,
    }
}

/// The source region a parse error points at (the zero span where none
/// applies).
pub open spec fn pe_span(e: ParserError) -> Span {
    match e {
        ParserError::UnknownDirective(_, s) => s,
        ParserError::MissingEntryPoint => Span::spec_zero(),
        ParserError::ExpectedIdentifier(_, s) => s,
        ParserError::ExpectedNumber(_, s) => s,
        ParserError::ExpectedDelimiter(_, s) => s,
        ParserError::ExpectedPercentSign(_, s) => s,
        ParserError::ExpectedColon(_, s) => s,
        ParserError::UnexpectedEof => Span::spec_zero(),
        ParserError::ExpectedRightBracket(_, s) => s,
        ParserError::ExpectedLeftBracket(_, s) => s,
        ParserError::ExpectedSign(_, s) => s,
        ParserError::InvalidImmType(_, s) => s,
        ParserError::RegisterOutOfBounds(_, s) => s,
        ParserError::UnexpectedToken(_, s) => s,
    }
}

/// The headline of a non-parse error.
pub open spec fn be_message(e: BitBoxError) -> Seq<char> {
    match e {
        BitBoxError::UnexpectedCharacter(_, _) => "unexpected character"@,
        BitBoxError::InvalidNumber(_) => "invalid number literal"@,
        BitBoxError::Parser(_) => ""@,
        BitBoxError::UnknownLabel(_, _) => "unknown label"@,
        BitBoxError::ProgramTooLarge => "program too large"@,
        BitBoxError::InvalidOpcode(_) => "invalid opcode"@,
        BitBoxError::InvalidType(_) => "invalid type"@,
        BitBoxError::RegisterOutOfBounds(_, _) => "register out of bounds"@,
        BitBoxError::StackUnderflow => "stack underflow"@,
        BitBoxError::DivisionByZero => "division by zero"@,
        BitBoxError::HeapOutOfBounds => "heap access out of bounds"@,
        BitBoxError::PcOutOfBounds => "program counter out of bounds"@,
        BitBoxError::InvalidSyscall(_) => "invalid system call"@,
        BitBoxError::InvalidImage => "image too short"@,
        BitBoxError::StepLimitExceeded => "step limit exceeded"@,
    }
}

/// The source region a non-parse error points at.
pub open spec fn be_span(e: BitBoxError) -> Span {
    match e {
        BitBoxError::UnexpectedCharacter(_, s) => s,
        BitBoxError::InvalidNumber(s) => s,
        BitBoxError::UnknownLabel(_, s) => s,
        BitBoxError::RegisterOutOfBounds(_, s) => s,
        _ => Span::spec_zero(),
    }
}

/// The report of one positioned message.
pub open spec fn spec_one_report(
    message: Seq<char>,
    filename: Seq<char>,
    src: Seq<char>,
    span: Span,
) -> Seq<char> {
    spec_report(ReportModel { message, ..fresh_report(filename, src, span) })
}

/// The reports of the first `k` errors of a parse batch, concatenated.
pub open spec fn spec_parser_reports(
    es: Seq<ParserError>,
    filename: Seq<char>,
    src: Seq<char>,
    k: int,
) -> Seq<char>
    decreases k,
{
    if k <= 0 {
        Seq::empty()
    } else {
        spec_parser_reports(es, filename, src, k - 1) + spec_one_report(
            pe_message(es[k - 1]),
            filename,
            src,
            pe_span(es[k - 1]),
        )
    }
}

/// What an error reports: one diagnostic, or for a parse failure one
/// diagnostic per collected error.
pub open spec fn spec_error_report(e: &BitBoxError, filename: Seq<char>, src: Seq<char>) -> Seq<
    char,
> {
    match e {
        BitBoxError::Parser(es) => spec_parser_reports(es@, filename, src, es@.len() as int),
        _ => spec_one_report(be_message(*e), filename, src, be_span(*e)),
    }
}

/// The headline of a parse error.
fn pe_msg(e: &ParserError) -> (r: &'static str)
    ensures
        r@ == pe_message(*e),
{
    match e {
        ParserError::UnknownDirective(_, _) => "unknown directive",
        ParserError::MissingEntryPoint => "missing entry point",
        ParserError::ExpectedIdentifier(_, _) => "expected identifier",
        ParserError::ExpectedNumber(_, _) => "expected number",
        ParserError::ExpectedDelimiter(_, _) => "expected delimiter",
        ParserError::ExpectedPercentSign(_, _) => "expected percent sign",
        ParserError::ExpectedColon(_, _) => "expected colon",
        ParserError::UnexpectedEof => "unexpected end of input",
        ParserError::ExpectedRightBracket(_, _) => "expected right bracket",
        ParserError::ExpectedLeftBracket(_, _) => "expected left bracket",
        ParserError::ExpectedSign(_, _) => "expected sign",
        ParserError::InvalidImmType(_, _) => "invalid immediate type",
        ParserError::RegisterOutOfBounds(_, _) => "register out of bounds",
        ParserError::UnexpectedToken(_, _) => "unexpected token",
    }
}

/// The source region a parse error points at.
fn pe_sp(e: &ParserError) -> (r: Span)
    ensures
        r == pe_span(*e),
{
    match e {
        ParserError::UnknownDirective(_, s) => *s,
        ParserError::MissingEntryPoint => Span::zero(),
        ParserError::ExpectedIdentifier(_, s) => *s,
        ParserError::ExpectedNumber(_, s) => *s,
        ParserError::ExpectedDelimiter(_, s) => *s,
        ParserError::ExpectedPercentSign(_, s) => *s,
        ParserError::ExpectedColon(_, s) => *s,
        ParserError::UnexpectedEof => Span::zero(),
        ParserError::ExpectedRightBracket(_, s) => *s,
        ParserError::ExpectedLeftBracket(_, s) => *s,
        ParserError::ExpectedSign(_, s) => *s,
        ParserError::InvalidImmType(_, s) => *s,
        ParserError::RegisterOutOfBounds(_, s) => *s,
        ParserError::UnexpectedToken(_, s) => *s,
    }
}

impl BitBoxError {
    /// Renders the error as one or more human-readable diagnostics over
    /// the source text.
    pub fn report(&self, filename: &str, src: &str) -> (r: String)
        ensures
            r@ == spec_error_report(self, filename@, src@),
    {
        match self {
            BitBoxError::Parser(es) => {
                let mut out = String::new();
                let mut k: usize = 0;
                while k < es.len()
                    invariant
                        k <= es@.len(),
                        out@ == spec_parser_reports(es@, filename@, src@, k as int),
                    decreases es@.len() - k,
                {
                    let e = &es[k];
                    let sp = pe_sp(e);
                    let one = ReportBuilder::new(filename, src, &sp).with_message(
                        pe_msg(e),
                    ).build();
                    out.append(one.as_str());
                    k = k + 1;
                    proof {
                        assert(out@ =~= spec_parser_reports(es@, filename@, src@, k as int));
                    }
                }
                out
            },
            _ => {
                let sp = self.span_of();
                let msg = self.message_of();
                ReportBuilder::new(filename, src, &sp).with_message(msg).build()
            },
        }
    }

    /// The headline of a non-parse error.
    fn message_of(&self) -> (r: &'static str)
        ensures
            r@ == be_message(*self),
    {
        match self {
            BitBoxError::UnexpectedCharacter(_, _) => "unexpected character",
            BitBoxError::InvalidNumber(_) => "invalid number literal",
            BitBoxError::Parser(_) => "",
            BitBoxError::UnknownLabel(_, _) => "unknown label",
            BitBoxError::ProgramTooLarge => "program too large",
            BitBoxError::InvalidOpcode(_) => "invalid opcode",
            BitBoxError::InvalidType(_) => "invalid type",
            BitBoxError::RegisterOutOfBounds(_, _) => "register out of bounds",
            BitBoxError::StackUnderflow => "stack underflow",
            BitBoxError::DivisionByZero => "division by zero",
            BitBoxError::HeapOutOfBounds => "heap access out of bounds",
            BitBoxError::PcOutOfBounds => "program counter out of bounds",
            BitBoxError::InvalidSyscall(_) => "invalid system call",
            BitBoxError::InvalidImage => "image too short",
            BitBoxError::StepLimitExceeded => "step limit exceeded",
        }
    }

    /// The source region a non-parse error points at.
    fn span_of(&self) -> (r: Span)
        ensures
            r == be_span(*self),
    {
        match self {
            BitBoxError::UnexpectedCharacter(_, s) => *s,
            BitBoxError::InvalidNumber(s) => *s,
            BitBoxError::UnknownLabel(_, s) => *s,
            BitBoxError::RegisterOutOfBounds(_, s) => *s,
            _ => Span::zero(),
        }
    }
}

} // verus!
