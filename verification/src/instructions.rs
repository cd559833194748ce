//! The instruction model: opcodes, type tags, operand forms, and their
//! binary encoding.
//!
//! An encoded instruction is one opcode byte, one type byte, and the
//! operand bytes of its form.  [`encode_instr`] is the specification of
//! that layout; [`Instruction::to_bytes`] emits it, and the virtual
//! machine's decoder is proved to invert it
//! ([`crate::vm::lemma_decode_encode`]).

use vstd::prelude::*;

use crate::assembler::SymbolTable;
use crate::encoding::le_bytes;
use crate::error::BitBoxError;
use crate::lexer::Span;

verus! {

/// One of the 32 machine registers, held as its operand byte.
#[derive(Debug, Clone, Copy, PartialEq, Eq, Structural)]
pub struct Register(pub u8);

impl View for Register {
    type V = u8;

    open spec fn view(&self) -> u8 {
        self.0
    }
}

impl Register {
    /// A register index is valid below the register count of 32.
    pub open spec fn spec_valid(idx: u8) -> bool {
        idx < 32
    }

    /// Checks a register index, as the parser must before encoding it.
    /// An index of 32 or above is rejected with a bounds error.
    pub fn try_from(value: u8, span: Span) -> (r: Result<Register, BitBoxError>)
        ensures
            Register::spec_valid(value) <==> r is Ok,
            r matches Ok(reg) ==> reg@ == value,
            r matches Err(e) ==> (e matches BitBoxError::RegisterOutOfBounds(v, s) && v == value
                && s == span),
    {
        if value < 32 {
            Ok(Register(value))
        } else {
            Err(BitBoxError::RegisterOutOfBounds(value, span))
        }
    }
}

/// An operation of the machine.
#[derive(Debug, Clone, Copy, PartialEq, Eq, Structural)]
pub enum Opcode {
    Load,
    Store,
    Copy,
    Aloc,
    Push,
    Pop,
    Add,
    Sub,
    Div,
    Mul,
    Inc,
    Eq,
    Jne,
    Hult,
    PrintReg,
    Call,
    And,
    Or,
    Shr,
    Return,
    Syscall,
}

/// The wire number of each opcode.
pub open spec fn opcode_byte(op: Opcode) -> u8 {
    match op {
        Opcode::Load => 0,
        Opcode::Store => 1,
        Opcode::Copy => 2,
        Opcode::Aloc => 3,
        Opcode::Push => 4,
        Opcode::Pop => 5,
        Opcode::Add => 6,
        Opcode::Sub => 7,
        Opcode::Div => 8,
        Opcode::Mul => 9,
        Opcode::Inc => 10,
        Opcode::Eq => 11,
        Opcode::Jne => 12,
        Opcode::Hult => 13,
        Opcode::PrintReg => 14,
        Opcode::Call => 15,
        Opcode::And => 16,
        Opcode::Or => 17,
        Opcode::Shr => 18,
        Opcode::Return => 19,
        Opcode::Syscall => 20,
    }
}

/// The opcode a wire number stands for, if any.
pub open spec fn spec_opcode_of_byte(value: u8) -> Option<Opcode> {
    if value == 0 {
        Some(Opcode::Load)
    } else if value == 1 {
        Some(Opcode::Store)
    } else if value == 2 {
        Some(Opcode::Copy)
    } else if value == 3 {
        Some(Opcode::Aloc)
    } else if value == 4 {
        Some(Opcode::Push)
    } else if value == 5 {
        Some(Opcode::Pop)
    } else if value == 6 {
        Some(Opcode::Add)
    } else if value == 7 {
        Some(Opcode::Sub)
    } else if value == 8 {
        Some(Opcode::Div)
    } else if value == 9 {
        Some(Opcode::Mul)
    } else if value == 10 {
        Some(Opcode::Inc)
    } else if value == 11 {
        Some(Opcode::Eq)
    } else if value == 12 {
        Some(Opcode::Jne)
    } else if value == 13 {
        Some(Opcode::Hult)
    } else if value == 14 {
        Some(Opcode::PrintReg)
    } else if value == 15 {
        Some(Opcode::Call)
    } else if value == 16 {
        Some(Opcode::And)
    } else if value == 17 {
        Some(Opcode::Or)
    } else if value == 18 {
        Some(Opcode::Shr)
    } else if value == 19 {
        Some(Opcode::Return)
    } else if value == 20 {
        Some(Opcode::Syscall)
    } else {
        None
    }
}

impl Opcode {
    /// Decodes a wire number; a byte above the opcode range is rejected.
    pub fn try_from(value: u8) -> (r: Result<Opcode, BitBoxError>)
        ensures
            r matches Ok(op) ==> spec_opcode_of_byte(value) == Some(op),
            r matches Err(e) ==> spec_opcode_of_byte(value) is None && (e matches
            BitBoxError::InvalidOpcode(v) && v == value),
    {
        match value {
            0 => Ok(Opcode::Load),
            1 => Ok(Opcode::Store),
            2 => Ok(Opcode::Copy),
            3 => Ok(Opcode::Aloc),
            4 => Ok(Opcode::Push),
            5 => Ok(Opcode::Pop),
            6 => Ok(Opcode::Add),
            7 => Ok(Opcode::Sub),
            8 => Ok(Opcode::Div),
            9 => Ok(Opcode::Mul),
            10 => Ok(Opcode::Inc),
            11 => Ok(Opcode::Eq),
            12 => Ok(Opcode::Jne),
            13 => Ok(Opcode::Hult),
            14 => Ok(Opcode::PrintReg),
            15 => Ok(Opcode::Call),
            16 => Ok(Opcode::And),
            17 => Ok(Opcode::Or),
            18 => Ok(Opcode::Shr),
            19 => Ok(Opcode::Return),
            20 => Ok(Opcode::Syscall),
            _ => Err(BitBoxError::InvalidOpcode(value)),
        }
    }

    /// The operand form this opcode's instructions take.
    pub fn form(&self) -> (f: Form)
        ensures
            f == opcode_form(*self),
    {
        match self {
            Opcode::Load => Form::FImm,
            Opcode::Store => Form::FReg2,
            Opcode::Copy => Form::FReg2,
            Opcode::Aloc => Form::FReg2,
            Opcode::Push => Form::FReg1,
            Opcode::Pop => Form::FReg1,
            Opcode::Add => Form::FReg3,
            Opcode::Sub => Form::FReg3,
            Opcode::Div => Form::FReg3,
            Opcode::Mul => Form::FReg3,
            Opcode::Inc => Form::FReg1,
            Opcode::Eq => Form::FReg3,
            Opcode::Jne => Form::FReg2Label,
            Opcode::Hult => Form::FNoArgs,
            Opcode::PrintReg => Form::FReg1,
            Opcode::Call => Form::FLabel,
            Opcode::And => Form::FReg3,
            Opcode::Or => Form::FReg3,
            Opcode::Shr => Form::FReg3,
            Opcode::Return => Form::FNoArgs,
            Opcode::Syscall => Form::FNoArgs,
        }
    }

    /// The wire number of this opcode.
    pub fn to_byte(&self) -> (r: u8)
        ensures
            r == opcode_byte(*self),
    {
        match self {
            Opcode::Load => 0,
            Opcode::Store => 1,
            Opcode::Copy => 2,
            Opcode::Aloc => 3,
            Opcode::Push => 4,
            Opcode::Pop => 5,
            Opcode::Add => 6,
            Opcode::Sub => 7,
            Opcode::Div => 8,
            Opcode::Mul => 9,
            Opcode::Inc => 10,
            Opcode::Eq => 11,
            Opcode::Jne => 12,
            Opcode::Hult => 13,
            Opcode::PrintReg => 14,
            Opcode::Call => 15,
            Opcode::And => 16,
            Opcode::Or => 17,
            Opcode::Shr => 18,
            Opcode::Return => 19,
            Opcode::Syscall => 20,
        }
    }
}

/// The operand type tag: unsigned or signed of a bit width, or no type.
///
/// The signed variants are accepted by the whole toolchain but reserved:
/// the machine executes them exactly as their unsigned counterparts.
#[derive(Debug, Clone, Copy, PartialEq, Eq, Structural)]
pub enum Type {
    /// Unsigned, of the given bit width.
    U(u8),
    /// Signed, of the given bit width; reserved, executed as unsigned.
    I(u8),
    /// No operand type; written for the forms that take none.
    Void,
}

/// The bit widths a type tag may carry.
pub open spec fn valid_width(w: u8) -> bool {
    w == 8 || w == 16 || w == 32 || w == 64 || w == 128
}

/// A type tag that the toolchain accepts on the wire.  A signed width of
/// 128 has no encoding: the width field is seven bits wide and the eighth
/// bit carries the sign, so byte 128 is taken by `U(128)`.
pub open spec fn wf_type(t: Type) -> bool {
    match t {
        Type::U(w) => valid_width(w),
        Type::I(w) => valid_width(w) && w != 128,
        Type::Void => true,
    }
}

/// The wire byte of a type tag: 0 for `Void`, otherwise the bit width with
/// the high bit set exactly for the signed variant.
pub open spec fn type_byte(t: Type) -> u8 {
    match t {
        Type::U(w) => w,
        Type::I(w) => (128 + w) as u8,
        Type::Void => 0,
    }
}

/// The type a wire byte stands for, if it is a valid encoding.
pub open spec fn spec_type_of_byte(value: u8) -> Option<Type> {
    if value == 0 {
        Some(Type::Void)
    } else if valid_width(value) {
        Some(Type::U(value))
    } else if value > 128 && valid_width((value - 128) as u8) {
        Some(Type::I((value - 128) as u8))
    } else {
        None
    }
}

/// The width of the type in bytes: what an immediate or a heap access of
/// this type occupies.
pub open spec fn type_width_bytes(t: Type) -> nat {
    match t {
        Type::U(w) => (w / 8) as nat,
        Type::I(w) => (w / 8) as nat,
        Type::Void => 0,
    }
}

impl Type {
    /// Decodes a type byte; a byte that encodes no valid width is
    /// rejected.
    pub fn try_from(value: u8) -> (r: Result<Type, BitBoxError>)
        ensures
            r matches Ok(t) ==> spec_type_of_byte(value) == Some(t) && wf_type(t),
            r matches Err(e) ==> spec_type_of_byte(value) is None && (e matches
            BitBoxError::InvalidType(v) && v == value),
    {
        if value == 0 {
            Ok(Type::Void)
        } else if value == 8 || value == 16 || value == 32 || value == 64 || value == 128 {
            Ok(Type::U(value))
        } else if value > 128 {
            let width = value - 128;
            if width == 8 || width == 16 || width == 32 || width == 64 {
                Ok(Type::I(width))
            } else {
                Err(BitBoxError::InvalidType(value))
            }
        } else {
            Err(BitBoxError::InvalidType(value))
        }
    }

    /// The wire byte of this type tag.
    pub fn as_u8(&self) -> (r: u8)
        requires
            wf_type(*self),
        ensures
            r == type_byte(*self),
    {
        match self {
            Type::U(num) => *num,
            Type::I(num) => 128 + *num,
            Type::Void => 0,
        }
    }

    /// The bit width the tag names (0 for `Void`).
    pub fn bytes(&self) -> (r: u8)
        ensures
            match *self {
                Type::U(w) => r == w,
                Type::I(w) => r == w,
                Type::Void => r == 0,
            },
    {
        match self {
            Type::U(num) => *num,
            Type::I(num) => *num,
            Type::Void => 0,
        }
    }

    /// The width of the type in bytes.
    pub fn width_bytes(&self) -> (r: u8)
        ensures
            r == type_width_bytes(*self),
    {
        match self {
            Type::U(num) => *num / 8,
            Type::I(num) => *num / 8,
            Type::Void => 0,
        }
    }
}

/// The little-endian bytes of an immediate operand.
#[derive(Debug, Clone)]
pub struct Imm(pub Vec<u8>);

impl View for Imm {
    type V = Seq<u8>;

    open spec fn view(&self) -> Seq<u8> {
        self.0@
    }
}

/// A named position in the image: a definition when it prefixes an
/// instruction, a reference when an operand names it.
#[derive(Debug, Clone)]
pub struct Label {
    pub name: String,
    pub span: Span,
    pub def: bool,
}

/// Specification-level label.
pub struct LabelModel {
    pub name: Seq<char>,
    pub span: Span,
    pub def: bool,
}

impl View for Label {
    type V = LabelModel;

    open spec fn view(&self) -> LabelModel {
        LabelModel { name: self.name@, span: self.span, def: self.def }
    }
}

/// A branch or call target: a symbol before resolution, a byte offset
/// after.
#[derive(Debug, Clone)]
pub enum Target {
    Sym(Label),
    Addr(u32),
}

/// Specification-level target.
pub enum TargetModel {
    Sym(LabelModel),
    Addr(u32),
}

impl View for Target {
    type V = TargetModel;

    open spec fn view(&self) -> TargetModel {
        match self {
            Target::Sym(l) => TargetModel::Sym(l@),
            Target::Addr(a) => TargetModel::Addr(*a),
        }
    }
}

/// The operand form of an instruction.
#[derive(Debug, Clone)]
pub enum Data {
    NoArgs,
    Reg1(Register),
    Reg2(Register, Register),
    Reg3(Register, Register, Register),
    Imm(Register, Imm),
    Label(Target),
    Reg2Label(Register, Register, Target),
}

/// Specification-level operand form.
pub enum DataModel {
    NoArgs,
    Reg1(u8),
    Reg2(u8, u8),
    Reg3(u8, u8, u8),
    Imm(u8, Seq<u8>),
    Label(TargetModel),
    Reg2Label(u8, u8, TargetModel),
}

impl View for Data {
    type V = DataModel;

    open spec fn view(&self) -> DataModel {
        match self {
            Data::NoArgs => DataModel::NoArgs,
            Data::Reg1(a) => DataModel::Reg1(a@),
            Data::Reg2(a, b) => DataModel::Reg2(a@, b@),
            Data::Reg3(a, b, c) => DataModel::Reg3(a@, b@, c@),
            Data::Imm(a, imm) => DataModel::Imm(a@, imm@),
            Data::Label(t) => DataModel::Label(t@),
            Data::Reg2Label(a, b, t) => DataModel::Reg2Label(a@, b@, t@),
        }
    }
}

/// The number of operand bytes a form encodes to.
pub open spec fn data_size(d: DataModel) -> int {
    match d {
        DataModel::NoArgs => 0,
        DataModel::Reg1(_) => 1,
        DataModel::Reg2(_, _) => 2,
        DataModel::Reg3(_, _, _) => 3,
        DataModel::Imm(_, imm) => 1 + imm.len() as int,
        DataModel::Label(_) => 4,
        DataModel::Reg2Label(_, _, _) => 6,
    }
}

/// An instruction: opcode, type tag and operands.
#[derive(Debug, Clone)]
pub struct Instruction {
    pub opcode: Opcode,
    pub ty: Type,
    pub data: Data,
}

/// Specification-level instruction.
pub struct InstrModel {
    pub opcode: Opcode,
    pub ty: Type,
    pub data: DataModel,
}

impl View for Instruction {
    type V = InstrModel;

    open spec fn view(&self) -> InstrModel {
        InstrModel { opcode: self.opcode, ty: self.ty, data: self.data@ }
    }
}

/// The operand form each opcode takes.
pub enum Form {
    FNoArgs,
    FReg1,
    FReg2,
    FReg3,
    FImm,
    FLabel,
    FReg2Label,
}

/// Which form an opcode's operands use.  `aloc` takes two registers: a
/// destination reserved for the block's address and the byte count.
pub open spec fn opcode_form(op: Opcode) -> Form {
    match op {
        Opcode::Load => Form::FImm,
        Opcode::Store => Form::FReg2,
        Opcode::Copy => Form::FReg2,
        Opcode::Aloc => Form::FReg2,
        Opcode::Push => Form::FReg1,
        Opcode::Pop => Form::FReg1,
        Opcode::Add => Form::FReg3,
        Opcode::Sub => Form::FReg3,
        Opcode::Div => Form::FReg3,
        Opcode::Mul => Form::FReg3,
        Opcode::Inc => Form::FReg1,
        Opcode::Eq => Form::FReg3,
        Opcode::Jne => Form::FReg2Label,
        Opcode::Hult => Form::FNoArgs,
        Opcode::PrintReg => Form::FReg1,
        Opcode::Call => Form::FLabel,
        Opcode::And => Form::FReg3,
        Opcode::Or => Form::FReg3,
        Opcode::Shr => Form::FReg3,
        Opcode::Return => Form::FNoArgs,
        Opcode::Syscall => Form::FNoArgs,
    }
}

/// Whether operands match a form: right variant, registers in range.
pub open spec fn data_matches_form(d: DataModel, f: Form) -> bool {
    match d {
        DataModel::NoArgs => f is FNoArgs,
        DataModel::Reg1(a) => f is FReg1 && a < 32,
        DataModel::Reg2(a, b) => f is FReg2 && a < 32 && b < 32,
        DataModel::Reg3(a, b, c) => f is FReg3 && a < 32 && b < 32 && c < 32,
        DataModel::Imm(a, _) => f is FImm && a < 32,
        DataModel::Label(_) => f is FLabel,
        DataModel::Reg2Label(a, b, _) => f is FReg2Label && a < 32 && b < 32,
    }
}

/// A well-formed instruction: a valid type tag, operands of the opcode's
/// form with all registers in range, and an immediate of exactly the
/// type's width.
pub open spec fn wf_instr(i: InstrModel) -> bool {
    &&& wf_type(i.ty)
    &&& data_matches_form(i.data, opcode_form(i.opcode))
    &&& (i.data matches DataModel::Imm(_, imm) ==> imm.len() == type_width_bytes(i.ty))
}

/// Whether every target in the operands is a resolved byte offset.
pub open spec fn data_resolved(d: DataModel) -> bool {
    match d {
        DataModel::Label(t) => t is Addr,
        DataModel::Reg2Label(_, _, t) => t is Addr,
        _ => true,
    }
}

/// The operand bytes of a resolved form.
pub open spec fn encode_data(d: DataModel) -> Seq<u8>
    recommends
        data_resolved(d),
{
    match d {
        DataModel::NoArgs => Seq::empty(),
        DataModel::Reg1(a) => seq![a],
        DataModel::Reg2(a, b) => seq![a, b],
        DataModel::Reg3(a, b, c) => seq![a, b, c],
        DataModel::Imm(a, imm) => seq![a] + imm,
        DataModel::Label(t) => match t {
            TargetModel::Addr(addr) => le_bytes(addr as nat, 4),
            TargetModel::Sym(_) => Seq::empty(),
        },
        DataModel::Reg2Label(a, b, t) => match t {
            TargetModel::Addr(addr) => seq![a, b] + le_bytes(addr as nat, 4),
            TargetModel::Sym(_) => Seq::empty(),
        },
    }
}

/// The full encoding of a resolved instruction: opcode byte, type byte,
/// operand bytes.
pub open spec fn encode_instr(i: InstrModel) -> Seq<u8>
    recommends
        data_resolved(i.data),
{
    seq![opcode_byte(i.opcode), type_byte(i.ty)] + encode_data(i.data)
}

/// The encoded size of an instruction: the two fixed bytes and its
/// operands.
pub open spec fn instr_size(i: InstrModel) -> int {
    2 + data_size(i.data)
}

/// Resolves the operands' targets against a symbol table, or reports the
/// label that is not defined.
pub open spec fn resolve_data(d: DataModel, st: Map<Seq<char>, u32>) -> Result<
    DataModel,
    LabelModel,
> {
    match d {
        DataModel::Label(TargetModel::Sym(l)) => if st.contains_key(l.name) {
            Ok(DataModel::Label(TargetModel::Addr(st[l.name])))
        } else {
            Err(l)
        },
        DataModel::Reg2Label(a, b, TargetModel::Sym(l)) => if st.contains_key(l.name) {
            Ok(DataModel::Reg2Label(a, b, TargetModel::Addr(st[l.name])))
        } else {
            Err(l)
        },
        _ => Ok(d),
    }
}

/// An instruction with its targets resolved, or the undefined label.
pub open spec fn resolve_instr(i: InstrModel, st: Map<Seq<char>, u32>) -> Result<
    InstrModel,
    LabelModel,
> {
    match resolve_data(i.data, st) {
        Ok(d) => Ok(InstrModel { opcode: i.opcode, ty: i.ty, data: d }),
        Err(l) => Err(l),
    }
}

/// Every opcode's wire number decodes back to the opcode.
pub proof fn lemma_opcode_byte_round_trip(op: Opcode)
    ensures
        spec_opcode_of_byte(opcode_byte(op)) == Some(op),
{
}

/// Every well-formed type tag's wire byte decodes back to the tag.
pub proof fn lemma_type_byte_round_trip(t: Type)
    requires
        wf_type(t),
    ensures
        spec_type_of_byte(type_byte(t)) == Some(t),
{
}

/// A resolved form encodes to exactly its size in operand bytes.
pub proof fn lemma_encode_data_len(d: DataModel)
    requires
        data_resolved(d),
    ensures
        encode_data(d).len() == data_size(d),
{
    match d {
        DataModel::Label(TargetModel::Addr(addr)) => {
            crate::encoding::lemma_le_bytes_len(addr as nat, 4);
        },
        DataModel::Reg2Label(_, _, TargetModel::Addr(addr)) => {
            crate::encoding::lemma_le_bytes_len(addr as nat, 4);
        },
        _ => {},
    }
}

impl Data {
    /// Emits the operand bytes, resolving symbolic targets against the
    /// symbol table.  Fails with `UnknownLabel` naming exactly the label
    /// that the table does not define.
    pub fn to_bytes(&self, symbol_table: &SymbolTable) -> (r: Result<Vec<u8>, BitBoxError>)
        ensures
            r matches Ok(v) ==> (resolve_data(self@, symbol_table@) matches Ok(d) && v@
                == encode_data(d)),
            r matches Err(e) ==> (resolve_data(self@, symbol_table@) matches Err(l) && (e matches
            BitBoxError::UnknownLabel(n, s) && n@ == l.name && s == l.span)),
    {
        match self {
            Data::NoArgs => Ok(Vec::new()),
            Data::Reg1(a) => {
                let mut v: Vec<u8> = Vec::new();
                v.push(a.0);
                assert(v@ =~= encode_data(self@));
                Ok(v)
            },
            Data::Reg2(a, b) => {
                let mut v: Vec<u8> = Vec::new();
                v.push(a.0);
                v.push(b.0);
                assert(v@ =~= encode_data(self@));
                Ok(v)
            },
            Data::Reg3(a, b, c) => {
                let mut v: Vec<u8> = Vec::new();
                v.push(a.0);
                v.push(b.0);
                v.push(c.0);
                assert(v@ =~= encode_data(self@));
                Ok(v)
            },
            Data::Imm(a, imm) => {
                let mut v: Vec<u8> = Vec::new();
                v.push(a.0);
                let mut k: usize = 0;
                while k < imm.0.len()
                    invariant
                        k <= imm.0@.len(),
                        v@ == seq![a.0].add(imm.0@.subrange(0, k as int)),
                    decreases imm.0@.len() - k,
                {
                    v.push(imm.0[k]);
                    k = k + 1;
                    assert(v@ =~= seq![a.0].add(imm.0@.subrange(0, k as int)));
                }
                assert(imm.0@.subrange(0, imm.0@.len() as int) =~= imm.0@);
                Ok(v)
            },
            Data::Label(t) => match t {
                Target::Addr(addr) => Ok(crate::encoding::le_bytes_of(*addr as u64, 4)),
                Target::Sym(l) => match symbol_table.lookup(&l.name) {
                    Some(addr) => Ok(crate::encoding::le_bytes_of(addr as u64, 4)),
                    None => Err(BitBoxError::UnknownLabel(l.name.clone(), l.span)),
                },
            },
            Data::Reg2Label(a, b, t) => {
                let mut v: Vec<u8> = Vec::new();
                v.push(a.0);
                v.push(b.0);
                let addr: u32 = match t {
                    Target::Addr(addr) => *addr,
                    Target::Sym(l) => match symbol_table.lookup(&l.name) {
                        Some(addr) => addr,
                        None => {
                            return Err(BitBoxError::UnknownLabel(l.name.clone(), l.span));
                        },
                    },
                };
                let mut tail = crate::encoding::le_bytes_of(addr as u64, 4);
                v.append(&mut tail);
                assert(resolve_data(self@, symbol_table@) matches Ok(d) && v@ == encode_data(d));
                Ok(v)
            },
        }
    }

    /// The number of operand bytes this form encodes to.
    pub fn size(&self) -> (r: usize)
        requires
            self@ matches DataModel::Imm(_, imm) ==> imm.len() <= 16,
        ensures
            r == data_size(self@),
    {
        match self {
            Data::NoArgs => 0,
            Data::Reg1(_) => 1,
            Data::Reg2(_, _) => 2,
            Data::Reg3(_, _, _) => 3,
            Data::Imm(_, imm) => 1 + imm.0.len(),
            Data::Label(_) => 4,
            Data::Reg2Label(_, _, _) => 6,
        }
    }
}

impl Instruction {
    /// Emits opcode byte, type byte and operand bytes, resolving targets
    /// against the symbol table.
    pub fn to_bytes(&self, symbol_table: &SymbolTable) -> (r: Result<Vec<u8>, BitBoxError>)
        requires
            wf_type(self.ty),
        ensures
            r matches Ok(v) ==> (resolve_instr(self@, symbol_table@) matches Ok(i) && v@
                == encode_instr(i)),
            r matches Err(e) ==> (resolve_instr(self@, symbol_table@) matches Err(l) && (e matches
            BitBoxError::UnknownLabel(n, s) && n@ == l.name && s == l.span)),
    {
        let mut bytes: Vec<u8> = Vec::new();
        bytes.push(self.opcode.to_byte());
        bytes.push(self.ty.as_u8());
        let mut rest = match self.data.to_bytes(symbol_table) {
            Ok(rest) => rest,
            Err(e) => {
                return Err(e);
            },
        };
        bytes.append(&mut rest);
        proof {
            let resolved = resolve_instr(self@, symbol_table@)->Ok_0;
            assert(bytes@ =~= encode_instr(resolved));
        }
        Ok(bytes)
    }

    /// The encoded size: one opcode byte, one type byte, and the operands.
    pub fn size(&self) -> (r: u32)
        requires
            self@.data matches DataModel::Imm(_, imm) ==> imm.len() <= 16,
        ensures
            r == instr_size(self@),
    {
        let opcode: u32 = 1;
        let type_: u32 = 1;
        let data = self.data.size() as u32;
        opcode + type_ + data
    }
}

} // verus!
