//! The virtual machine: fetch, decode and execute over an assembled image.
//!
//! The machine's behaviour is specified once, as the transition function
//! [`vm_step`] over the abstract state [`VmModel`]: it decodes the
//! instruction at the program counter ([`spec_decode`]) and applies its
//! effect ([`apply_instr`]), or names the fault that stops the run.
//! [`Vm::execute`] is proved to perform exactly one such step, and
//! [`Vm::run`] to iterate it until the machine halts or faults.
//!
//! Register arithmetic is 64-bit regardless of the instruction's type tag,
//! with wraparound on `add`, `sub`, `mul` and `inc`; the type tag governs
//! only immediate width and heap access width.  Output (`printreg` and the
//! write syscall) is collected in the machine's output buffer, which the
//! caller drains to wherever it likes.

use vstd::prelude::*;

use crate::encoding::dec_bytes;
use crate::encoding::dec_digits;
use crate::encoding::le_bytes;
use crate::encoding::le_bytes_of;
use crate::encoding::le_value;
use crate::encoding::lemma_le_value_bound;
use crate::encoding::lemma_pow256_values;
use crate::encoding::lemma_pow256_mono;
use crate::error::BitBoxError;
use crate::instructions::data_resolved;
use crate::instructions::encode_data;
use crate::instructions::encode_instr;
use crate::instructions::instr_size;
use crate::instructions::lemma_encode_data_len;
use crate::instructions::lemma_opcode_byte_round_trip;
use crate::instructions::lemma_type_byte_round_trip;
use crate::instructions::opcode_byte;
use crate::instructions::opcode_form;
use crate::instructions::type_byte;
use crate::instructions::wf_instr;
use crate::instructions::spec_opcode_of_byte;
use crate::instructions::spec_type_of_byte;
use crate::instructions::type_width_bytes;
use crate::instructions::Data;
use crate::instructions::DataModel;
use crate::instructions::Form;
use crate::instructions::Imm;
use crate::instructions::InstrModel;
use crate::instructions::Instruction;
use crate::instructions::Opcode;
use crate::instructions::Register;
use crate::instructions::Target;
use crate::instructions::TargetModel;
use crate::instructions::Type;

verus! {

/// The abstract machine state.
#[verifier::ext_equal]
pub struct VmModel {
    /// The immutable image the machine executes.
    pub program: Seq<u8>,
    /// The 32 registers.
    pub regs: Seq<u64>,
    /// The value stack, last element on top.
    pub stack: Seq<u64>,
    /// The byte-addressed heap.
    pub heap: Seq<u8>,
    /// The program counter: a byte offset into the image.
    pub pc: int,
    /// Cleared by `hult`.
    pub running: bool,
    /// Everything printed so far.
    pub output: Seq<u8>,
}

/// A condition that stops the machine.
pub enum Fault {
    InvalidOpcode(u8),
    InvalidType(u8),
    RegisterOutOfBounds(u8),
    StackUnderflow,
    DivisionByZero,
    HeapOutOfBounds,
    PcOutOfBounds,
    InvalidSyscall(u64),
}

/// Whether `e` is the error the fault `f` surfaces as.
pub open spec fn fault_matches(e: BitBoxError, f: Fault) -> bool {
    match f {
        Fault::InvalidOpcode(b) => e matches BitBoxError::InvalidOpcode(v) && v == b,
        Fault::InvalidType(b) => e matches BitBoxError::InvalidType(v) && v == b,
        Fault::RegisterOutOfBounds(b) => e matches BitBoxError::RegisterOutOfBounds(v, s) && v == b
            && s == crate::lexer::Span::spec_zero(),
        Fault::StackUnderflow => e is StackUnderflow,
        Fault::DivisionByZero => e is DivisionByZero,
        Fault::HeapOutOfBounds => e is HeapOutOfBounds,
        Fault::PcOutOfBounds => e is PcOutOfBounds,
        Fault::InvalidSyscall(n) => e matches BitBoxError::InvalidSyscall(v) && v == n,
    }
}

/// What decoding at a program counter yields: an instruction and the
/// position after it, or a fault.
pub enum DecodeResult {
    DOk(InstrModel, int),
    DFault(Fault),
}

/// Decodes the operand bytes of `op` starting at `i`: registers each below
/// 32, an immediate of the type's width, or a four-byte target.
pub open spec fn spec_decode_operands(p: Seq<u8>, i: int, op: Opcode, ty: Type) -> DecodeResult {
    match opcode_form(op) {
        Form::FNoArgs => DecodeResult::DOk(InstrModel { opcode: op, ty, data: DataModel::NoArgs }, i),
        Form::FReg1 => {
            if i + 1 > p.len() {
                DecodeResult::DFault(Fault::PcOutOfBounds)
            } else if p[i] >= 32 {
                DecodeResult::DFault(Fault::RegisterOutOfBounds(p[i]))
            } else {
                DecodeResult::DOk(
                    InstrModel { opcode: op, ty, data: DataModel::Reg1(p[i]) },
                    i + 1,
                )
            }
        },
        Form::FReg2 => {
            if i + 2 > p.len() {
                DecodeResult::DFault(Fault::PcOutOfBounds)
            } else if p[i] >= 32 {
                DecodeResult::DFault(Fault::RegisterOutOfBounds(p[i]))
            } else if p[i + 1] >= 32 {
                DecodeResult::DFault(Fault::RegisterOutOfBounds(p[i + 1]))
            } else {
                DecodeResult::DOk(
                    InstrModel { opcode: op, ty, data: DataModel::Reg2(p[i], p[i + 1]) },
                    i + 2,
                )
            }
        },
        Form::FReg3 => {
            if i + 3 > p.len() {
                DecodeResult::DFault(Fault::PcOutOfBounds)
            } else if p[i] >= 32 {
                DecodeResult::DFault(Fault::RegisterOutOfBounds(p[i]))
            } else if p[i + 1] >= 32 {
                DecodeResult::DFault(Fault::RegisterOutOfBounds(p[i + 1]))
            } else if p[i + 2] >= 32 {
                DecodeResult::DFault(Fault::RegisterOutOfBounds(p[i + 2]))
            } else {
                DecodeResult::DOk(
                    InstrModel { opcode: op, ty, data: DataModel::Reg3(p[i], p[i + 1], p[i + 2]) },
                    i + 3,
                )
            }
        },
        Form::FImm => {
            if i + 1 > p.len() {
                DecodeResult::DFault(Fault::PcOutOfBounds)
            } else if p[i] >= 32 {
                DecodeResult::DFault(Fault::RegisterOutOfBounds(p[i]))
            } else if i + 1 + type_width_bytes(ty) > p.len() {
                DecodeResult::DFault(Fault::PcOutOfBounds)
            } else {
                DecodeResult::DOk(
                    InstrModel {
                        opcode: op,
                        ty,
                        data: DataModel::Imm(
                            p[i],
                            p.subrange(i + 1, i + 1 + type_width_bytes(ty)),
                        ),
                    },
                    i + 1 + type_width_bytes(ty),
                )
            }
        },
        Form::FLabel => {
            if i + 4 > p.len() {
                DecodeResult::DFault(Fault::PcOutOfBounds)
            } else {
                DecodeResult::DOk(
                    InstrModel {
                        opcode: op,
                        ty,
                        data: DataModel::Label(
                            TargetModel::Addr(le_value(p.subrange(i, i + 4)) as u32),
                        ),
                    },
                    i + 4,
                )
            }
        },
        Form::FReg2Label => {
            if i + 6 > p.len() {
                DecodeResult::DFault(Fault::PcOutOfBounds)
            } else if p[i] >= 32 {
                DecodeResult::DFault(Fault::RegisterOutOfBounds(p[i]))
            } else if p[i + 1] >= 32 {
                DecodeResult::DFault(Fault::RegisterOutOfBounds(p[i + 1]))
            } else {
                DecodeResult::DOk(
                    InstrModel {
                        opcode: op,
                        ty,
                        data: DataModel::Reg2Label(
                            p[i],
                            p[i + 1],
                            TargetModel::Addr(le_value(p.subrange(i + 2, i + 6)) as u32),
                        ),
                    },
                    i + 6,
                )
            }
        },
    }
}

/// Decodes the instruction at `pc`: one opcode byte, one type byte, then
/// the operands of the opcode's form.
pub open spec fn spec_decode(p: Seq<u8>, pc: int) -> DecodeResult {
    if pc < 0 || pc + 1 > p.len() {
        DecodeResult::DFault(Fault::PcOutOfBounds)
    } else {
        match spec_opcode_of_byte(p[pc]) {
            Option::None => DecodeResult::DFault(Fault::InvalidOpcode(p[pc])),
            Option::Some(op) => {
                if pc + 2 > p.len() {
                    DecodeResult::DFault(Fault::PcOutOfBounds)
                } else {
                    match spec_type_of_byte(p[pc + 1]) {
                        Option::None => DecodeResult::DFault(Fault::InvalidType(p[pc + 1])),
                        Option::Some(ty) => spec_decode_operands(p, pc + 2, op, ty),
                    }
                }
            },
        }
    }
}

/// The 64-bit value an immediate loads: its low eight bytes,
/// little-endian, zero-extended.
pub open spec fn imm_reg_value(bs: Seq<u8>) -> u64 {
    if bs.len() <= 8 {
        le_value(bs) as u64
    } else {
        le_value(bs.subrange(0, 8)) as u64
    }
}

/// The heap with `bytes` written at `addr`.
pub open spec fn heap_write(h: Seq<u8>, addr: int, bytes: Seq<u8>) -> Seq<u8>
    recommends
        0 <= addr,
        addr + bytes.len() <= h.len(),
{
    h.subrange(0, addr) + bytes + h.subrange(addr + bytes.len(), h.len() as int)
}

/// `n` zero bytes.
pub open spec fn zero_bytes(n: nat) -> Seq<u8> {
    Seq::new(n, |i: int| 0u8)
}

/// The result of one machine step.
pub enum StepResult {
    Next(VmModel),
    Fault(Fault),
}

/// The effect of an instruction whose operands were already decoded; `s`
/// has the program counter already advanced past the instruction.
///
/// Operand shapes other than the opcode's own cannot come out of
/// [`spec_decode`], so their value here is immaterial.
pub open spec fn apply_instr(s: VmModel, i: InstrModel) -> StepResult {
    match (i.opcode, i.data) {
        (Opcode::Load, DataModel::Imm(r, bs)) => StepResult::Next(
            VmModel { regs: s.regs.update(r as int, imm_reg_value(bs)), ..s },
        ),
        (Opcode::Store, DataModel::Reg2(d, src)) => {
            let addr = s.regs[d as int];
            let w = type_width_bytes(i.ty);
            if addr + w > s.heap.len() {
                StepResult::Fault(Fault::HeapOutOfBounds)
            } else {
                StepResult::Next(
                    VmModel {
                        heap: heap_write(
                            s.heap,
                            addr as int,
                            le_bytes(s.regs[src as int] as nat, w),
                        ),
                        ..s
                    },
                )
            }
        },
        (Opcode::Copy, DataModel::Reg2(d, src)) => StepResult::Next(
            VmModel { regs: s.regs.update(d as int, s.regs[src as int]), ..s },
        ),
        (Opcode::Aloc, DataModel::Reg2(_, src)) => {
            let n = s.regs[src as int];
            if s.heap.len() + n > usize::MAX {
                StepResult::Fault(Fault::HeapOutOfBounds)
            } else {
                StepResult::Next(VmModel { heap: s.heap + zero_bytes(n as nat), ..s })
            }
        },
        (Opcode::Push, DataModel::Reg1(r)) => StepResult::Next(
            VmModel { stack: s.stack.push(s.regs[r as int]), ..s },
        ),
        (Opcode::Pop, DataModel::Reg1(r)) => {
            if s.stack.len() == 0 {
                StepResult::Fault(Fault::StackUnderflow)
            } else {
                StepResult::Next(
                    VmModel {
                        regs: s.regs.update(r as int, s.stack.last()),
                        stack: s.stack.drop_last(),
                        ..s
                    },
                )
            }
        },
        (Opcode::Add, DataModel::Reg3(d, l, r)) => StepResult::Next(
            VmModel {
                regs: s.regs.update(
                    d as int,
                    vstd::wrapping::u64_specs::wrapping_add(s.regs[l as int], s.regs[r as int]),
                ),
                ..s
            },
        ),
        (Opcode::Sub, DataModel::Reg3(d, l, r)) => StepResult::Next(
            VmModel {
                regs: s.regs.update(
                    d as int,
                    vstd::wrapping::u64_specs::wrapping_sub(s.regs[l as int], s.regs[r as int]),
                ),
                ..s
            },
        ),
        (Opcode::Div, DataModel::Reg3(d, l, r)) => {
            if s.regs[r as int] == 0 {
                StepResult::Fault(Fault::DivisionByZero)
            } else {
                StepResult::Next(
                    VmModel {
                        regs: s.regs.update(
                            d as int,
                            (s.regs[l as int] / s.regs[r as int]) as u64,
                        ),
                        ..s
                    },
                )
            }
        },
        (Opcode::Mul, DataModel::Reg3(d, l, r)) => StepResult::Next(
            VmModel {
                regs: s.regs.update(
                    d as int,
                    vstd::wrapping::u64_specs::wrapping_mul(s.regs[l as int], s.regs[r as int]),
                ),
                ..s
            },
        ),
        (Opcode::Inc, DataModel::Reg1(r)) => StepResult::Next(
            VmModel {
                regs: s.regs.update(
                    r as int,
                    vstd::wrapping::u64_specs::wrapping_add(s.regs[r as int], 1),
                ),
                ..s
            },
        ),
        (Opcode::Eq, DataModel::Reg3(d, l, r)) => StepResult::Next(
            VmModel {
                regs: s.regs.update(
                    d as int,
                    if s.regs[l as int] == s.regs[r as int] {
                        1u64
                    } else {
                        0u64
                    },
                ),
                ..s
            },
        ),
        (Opcode::Jne, DataModel::Reg2Label(l, r, TargetModel::Addr(t))) => {
            if s.regs[l as int] == s.regs[r as int] {
                StepResult::Next(s)
            } else {
                StepResult::Next(VmModel { pc: t as int, ..s })
            }
        },
        (Opcode::Hult, DataModel::NoArgs) => StepResult::Next(VmModel { running: false, ..s }),
        (Opcode::PrintReg, DataModel::Reg1(r)) => StepResult::Next(
            VmModel { output: s.output + dec_digits(s.regs[r as int] as nat) + seq![10u8], ..s },
        ),
        (Opcode::Call, DataModel::Label(TargetModel::Addr(t))) => StepResult::Next(
            VmModel { stack: s.stack.push(s.pc as u64), pc: t as int, ..s },
        ),
        (Opcode::And, DataModel::Reg3(d, l, r)) => StepResult::Next(
            VmModel { regs: s.regs.update(d as int, s.regs[l as int] & s.regs[r as int]), ..s },
        ),
        (Opcode::Or, DataModel::Reg3(d, l, r)) => StepResult::Next(
            VmModel { regs: s.regs.update(d as int, s.regs[l as int] | s.regs[r as int]), ..s },
        ),
        (Opcode::Shr, DataModel::Reg3(d, l, r)) => StepResult::Next(
            VmModel {
                regs: s.regs.update(
                    d as int,
                    if s.regs[r as int] < 64 {
                        s.regs[l as int] >> s.regs[r as int]
                    } else {
                        0u64
                    },
                ),
                ..s
            },
        ),
        (Opcode::Return, DataModel::NoArgs) => {
            if s.stack.len() == 0 {
                StepResult::Fault(Fault::StackUnderflow)
            } else if s.stack.last() > usize::MAX {
                StepResult::Fault(Fault::PcOutOfBounds)
            } else {
                StepResult::Next(
                    VmModel { pc: s.stack.last() as int, stack: s.stack.drop_last(), ..s },
                )
            }
        },
        (Opcode::Syscall, DataModel::NoArgs) => {
            if s.regs[0] == 0 {
                let ptr = s.regs[1];
                let len = s.regs[2];
                if ptr + len > s.heap.len() {
                    StepResult::Fault(Fault::HeapOutOfBounds)
                } else {
                    StepResult::Next(
                        VmModel {
                            output: s.output + s.heap.subrange(ptr as int, ptr as int + len as int),
                            ..s
                        },
                    )
                }
            } else {
                StepResult::Fault(Fault::InvalidSyscall(s.regs[0]))
            }
        },
        _ => arbitrary(),
    }
}

/// One machine step: fetch and decode at the program counter, advance it
/// past the instruction, and apply the instruction's effect.
pub open spec fn vm_step(s: VmModel) -> StepResult {
    match spec_decode(s.program, s.pc) {
        DecodeResult::DFault(f) => StepResult::Fault(f),
        DecodeResult::DOk(i, next) => apply_instr(VmModel { pc: next, ..s }, i),
    }
}

/// `n` machine steps from `s`; a fault anywhere makes the whole run that
/// fault.
pub open spec fn steps_n(s: VmModel, n: nat) -> StepResult
    decreases n,
{
    if n == 0 {
        StepResult::Next(s)
    } else {
        match vm_step(s) {
            StepResult::Next(s2) => steps_n(s2, (n - 1) as nat),
            StepResult::Fault(f) => StepResult::Fault(f),
        }
    }
}

/// A step after `n` fault-free steps is step `n + 1`.
pub proof fn lemma_steps_snoc(s: VmModel, n: nat, t: VmModel)
    requires
        steps_n(s, n) == StepResult::Next(t),
    ensures
        steps_n(s, (n + 1) as nat) == vm_step(t),
    decreases n,
{
    if n > 0 {
        match vm_step(s) {
            StepResult::Next(s2) => {
                lemma_steps_snoc(s2, (n - 1) as nat, t);
            },
            StepResult::Fault(_) => {},
        }
    } else {
        match vm_step(t) {
            StepResult::Next(s2) => {
                assert(steps_n(t, 1) == steps_n(s2, 0));
            },
            StepResult::Fault(_) => {},
        }
    }
}


/// The bytes of the first `k` arguments, concatenated in order.
pub open spec fn args_bytes(args: Seq<String>, k: int) -> Seq<u8>
    decreases k,
{
    if k <= 0 {
        Seq::empty()
    } else {
        args_bytes(args, k - 1) + vstd::utf8::encode_utf8(args[k - 1]@)
    }
}

/// The stack cell describing argument `k`: its byte length in the high 32
/// bits, its heap offset in the low 32.
pub open spec fn arg_cell(args: Seq<String>, k: int) -> u64 {
    ((vstd::utf8::encode_utf8(args[k]@).len() as u64) << 32) | (args_bytes(args, k).len() as u64)
}

/// The argument cells of the first `k` arguments, in order.
pub open spec fn arg_cells(args: Seq<String>, k: int) -> Seq<u64>
    decreases k,
{
    if k <= 0 {
        Seq::empty()
    } else {
        arg_cells(args, k - 1).push(arg_cell(args, k - 1))
    }
}

/// Argument bytes only accumulate.
pub proof fn lemma_args_bytes_mono(args: Seq<String>, a: int, b: int)
    requires
        a <= b,
    ensures
        args_bytes(args, a).len() <= args_bytes(args, b).len(),
    decreases b - a,
{
    if a < b {
        lemma_args_bytes_mono(args, a, b - 1);
    }
}

/// The number of registers the machine has.
pub const REGESTER_COUNT: usize = 32;

/// The machine: an image, 32 registers, a value stack, a heap, and the
/// output collected so far.
#[derive(Debug)]
pub struct Vm {
    pub program: Vec<u8>,
    pub regesters: Vec<u64>,
    pub stack: Vec<u64>,
    pub heap: Vec<u8>,
    pub pc: usize,
    pub running: bool,
    pub output: Vec<u8>,
}

impl View for Vm {
    type V = VmModel;

    open spec fn view(&self) -> VmModel {
        VmModel {
            program: self.program@,
            regs: self.regesters@,
            stack: self.stack@,
            heap: self.heap@,
            pc: self.pc as int,
            running: self.running,
            output: self.output@,
        }
    }
}

impl Vm {
    /// The machine is well formed when it has exactly its 32 registers.
    pub open spec fn wf(&self) -> bool {
        self.regesters@.len() == 32
    }

    /// Creates a machine over an image, with the program counter read from
    /// the entry field at byte offset 8 of the header.  An image shorter
    /// than the 64-byte header is rejected.
    pub fn new(program: Vec<u8>) -> (r: Result<Vm, BitBoxError>)
        ensures
            r matches Ok(vm) ==> ({
                &&& program@.len() >= 64
                &&& vm.wf()
                &&& vm@ == (VmModel {
                    program: program@,
                    regs: Seq::new(32, |i: int| 0u64),
                    stack: Seq::<u64>::empty(),
                    heap: Seq::<u8>::empty(),
                    pc: le_value(program@.subrange(8, 12)) as int,
                    running: true,
                    output: Seq::<u8>::empty(),
                })
            }),
            r matches Err(e) ==> program@.len() < 64 && e is InvalidImage,
    {
        if program.len() < 64 {
            return Err(BitBoxError::InvalidImage);
        }
        let mut entry: Vec<u8> = Vec::new();
        entry.push(program[8]);
        entry.push(program[9]);
        entry.push(program[10]);
        entry.push(program[11]);
        assert(entry@ =~= program@.subrange(8, 12));
        let pc_value = crate::encoding::le_value_of(entry.as_slice());
        proof {
            lemma_le_value_bound(entry@);
            lemma_pow256_values();
            lemma_pow256_mono(4, 8);
        }
        let pc = pc_value as usize;
        let mut regesters: Vec<u64> = Vec::new();
        let mut k: usize = 0;
        while k < 32
            invariant
                k <= 32,
                regesters@ =~= Seq::new(k as nat, |i: int| 0u64),
            decreases 32 - k,
        {
            regesters.push(0);
            k = k + 1;
            assert(regesters@ =~= Seq::new(k as nat, |i: int| 0u64));
        }
        let vm = Vm {
            program,
            regesters,
            stack: Vec::new(),
            heap: Vec::new(),
            pc,
            running: true,
            output: Vec::new(),
        };
        assert(vm@ =~= (VmModel {
            program: vm.program@,
            regs: Seq::new(32, |i: int| 0u64),
            stack: Seq::<u64>::empty(),
            heap: Seq::<u8>::empty(),
            pc: le_value(vm.program@.subrange(8, 12)) as int,
            running: true,
            output: Seq::<u8>::empty(),
        }));
        Ok(vm)
    }


    /// Seeds the machine with command-line arguments: the argument count
    /// in register 0, each argument's bytes on the heap at increasing
    /// offsets counted from 0, and for each argument a stack cell of its
    /// length and offset, the whole stack then reversed so the first
    /// argument is on top.
    pub fn with_args(self, args: Vec<String>) -> (r: Self)
        requires
            self.wf(),
            args_bytes(args@, args@.len() as int).len() <= u32::MAX,
            self@.heap.len() + args_bytes(args@, args@.len() as int).len() <= usize::MAX,
        ensures
            r.wf(),
            r@ == (VmModel {
                regs: self@.regs.update(0, args@.len() as u64),
                heap: self@.heap + args_bytes(args@, args@.len() as int),
                stack: (self@.stack + arg_cells(args@, args@.len() as int)).reverse(),
                ..self@
            }),
    {
        let ghost orig = self@;
        let ghost argsv = args@;
        let mut vm = self;
        let argc = args.len() as u64;
        vm.set_regester(0, argc);
        let mut ptr: u64 = 0;
        let mut k: usize = 0;
        while k < args.len()
            invariant
                k <= argsv.len(),
                argsv == args@,
                args_bytes(argsv, argsv.len() as int).len() <= u32::MAX,
                orig.heap.len() + args_bytes(argsv, argsv.len() as int).len() <= usize::MAX,
                ptr == args_bytes(argsv, k as int).len(),
                vm.regesters@ == orig.regs.update(0, argsv.len() as u64),
                vm.program@ == orig.program,
                vm.heap@ == orig.heap + args_bytes(argsv, k as int),
                vm.stack@ == orig.stack + arg_cells(argsv, k as int),
                vm.pc == orig.pc,
                vm.running == orig.running,
                vm.output@ == orig.output,
            decreases argsv.len() - k,
        {
            proof {
                lemma_args_bytes_mono(argsv, k as int + 1, argsv.len() as int);
            }
            let mut bytes = args[k].as_str().as_bytes_vec();
            let len = bytes.len() as u64;
            vm.stack.push((len << 32) | ptr);
            vm.heap.append(&mut bytes);
            ptr = ptr + len;
            k = k + 1;
            proof {
                assert(vm.heap@ =~= orig.heap + args_bytes(argsv, k as int));
                assert(vm.stack@ =~= orig.stack + arg_cells(argsv, k as int));
            }
        }
        let ghost full = vm.stack@;
        let mut rev: Vec<u64> = Vec::new();
        while vm.stack.len() > 0
            invariant
                vm.stack@.len() <= full.len(),
                vm.stack@ == full.take(vm.stack@.len() as int),
                rev@ == full.skip(vm.stack@.len() as int).reverse(),
                full == orig.stack + arg_cells(argsv, argsv.len() as int),
                vm.regesters@ == orig.regs.update(0, argsv.len() as u64),
                vm.program@ == orig.program,
                vm.heap@ == orig.heap + args_bytes(argsv, argsv.len() as int),
                vm.pc == orig.pc,
                vm.running == orig.running,
                vm.output@ == orig.output,
            decreases vm.stack@.len(),
        {
            let ghost n = vm.stack@.len() as int;
            match vm.stack.pop() {
                Some(v) => {
                    rev.push(v);
                    proof {
                        assert(vm.stack@ =~= full.take(n - 1));
                        assert(full.take(n).last() == full[n - 1]);
                        assert(rev@ =~= full.skip(n - 1).reverse());
                    }
                },
                None => {
                    // the loop condition keeps the stack non-empty here
                    proof {
                        assert(false);
                    }
                },
            }
        }
        proof {
            assert(full.skip(0) =~= full);
        }
        vm.stack = rev;
        proof {
            assert(vm@ =~= (VmModel {
                regs: orig.regs.update(0, argsv.len() as u64),
                heap: orig.heap + args_bytes(argsv, argsv.len() as int),
                stack: (orig.stack + arg_cells(argsv, argsv.len() as int)).reverse(),
                ..orig
            }));
        }
        vm
    }

    /// Reads a register.
    pub fn get_regester(&self, reg: u8) -> (r: u64)
        requires
            self.wf(),
            reg < 32,
        ensures
            r == self@.regs[reg as int],
    {
        self.regesters[reg as usize]
    }

    /// Writes a register.
    pub fn set_regester(&mut self, reg: u8, value: u64)
        requires
            old(self).wf(),
            reg < 32,
        ensures
            final(self).wf(),
            final(self)@ == (VmModel { regs: old(self)@.regs.update(reg as int, value), ..old(
                self,
            )@ }),
    {
        self.regesters[reg as usize] = value;
        assert(final(self)@ =~= (VmModel {
            regs: old(self)@.regs.update(reg as int, value),
            ..old(self)@
        }));
    }

    /// Pushes a value onto the stack.
    pub fn push_to_stack(&mut self, value: u64)
        requires
            old(self).wf(),
        ensures
            final(self).wf(),
            final(self)@ == (VmModel { stack: old(self)@.stack.push(value), ..old(self)@ }),
    {
        self.stack.push(value);
        assert(final(self)@ =~= (VmModel { stack: old(self)@.stack.push(value), ..old(self)@ }));
    }

    /// Pops the top of the stack, which must not be empty.
    pub fn pop_from_stack(&mut self) -> (r: u64)
        requires
            old(self).wf(),
            old(self)@.stack.len() > 0,
        ensures
            final(self).wf(),
            r == old(self)@.stack.last(),
            final(self)@ == (VmModel { stack: old(self)@.stack.drop_last(), ..old(self)@ }),
    {
        let r = match self.stack.pop() {
            Some(v) => v,
            None => 0,  // cannot happen: the stack is not empty
        };
        assert(final(self)@ =~= (VmModel { stack: old(self)@.stack.drop_last(), ..old(self)@ }));
        r
    }

    /// Writes `width` little-endian bytes of `value` at heap address
    /// `addr`, which must lie within the heap.
    fn store_heap(&mut self, addr: u64, value: u64, width: u8)
        requires
            old(self).wf(),
            addr + width <= old(self)@.heap.len(),
        ensures
            final(self).wf(),
            final(self)@ == (VmModel {
                heap: heap_write(old(self)@.heap, addr as int, le_bytes(value as nat, width as nat)),
                ..old(self)@
            }),
    {
        let bytes = le_bytes_of(value, width as usize);
        let ghost orig = self@;
        let mut k: usize = 0;
        let hl = self.heap.len();
        assert(addr <= hl as u64);
        let base = addr as usize;
        while k < width as usize
            invariant
                k <= width,
                base == addr,
                bytes@ == le_bytes(value as nat, width as nat),
                bytes@.len() == width,
                base + width <= orig.heap.len(),
                orig.heap.len() == hl,
                self.regesters@ == orig.regs,
                self.program@ == orig.program,
                self.stack@ == orig.stack,
                self.pc == orig.pc,
                self.running == orig.running,
                self.output@ == orig.output,
                self.heap@ =~= orig.heap.subrange(0, base as int) + bytes@.subrange(0, k as int)
                    + orig.heap.subrange(base + k, orig.heap.len() as int),
            decreases width - k,
        {
            assert(self.heap@.len() == orig.heap.len());
            self.heap[base + k] = bytes[k];
            k = k + 1;
            assert(self.heap@ =~= orig.heap.subrange(0, base as int) + bytes@.subrange(0, k as int)
                + orig.heap.subrange(base + k, orig.heap.len() as int));
        }
        proof {
            assert(self@.heap =~= heap_write(
                orig.heap,
                addr as int,
                le_bytes(value as nat, width as nat),
            ));
            assert(self@ =~= (VmModel {
                heap: heap_write(orig.heap, addr as int, le_bytes(value as nat, width as nat)),
                ..orig
            }));
        }
    }

    /// Writes one byte at heap address `dest`.
    pub fn set_heap_u8(&mut self, dest: u64, value: u8)
        requires
            old(self).wf(),
            dest + 1 <= old(self)@.heap.len(),
        ensures
            final(self).wf(),
            final(self)@ == (VmModel {
                heap: heap_write(old(self)@.heap, dest as int, le_bytes(value as nat, 1)),
                ..old(self)@
            }),
    {
        self.store_heap(dest, value as u64, 1);
    }

    /// Writes two little-endian bytes at heap address `dest`.
    pub fn set_heap_u16(&mut self, dest: u64, value: u16)
        requires
            old(self).wf(),
            dest + 2 <= old(self)@.heap.len(),
        ensures
            final(self).wf(),
            final(self)@ == (VmModel {
                heap: heap_write(old(self)@.heap, dest as int, le_bytes(value as nat, 2)),
                ..old(self)@
            }),
    {
        self.store_heap(dest, value as u64, 2);
    }

    /// Writes four little-endian bytes at heap address `dest`.
    pub fn set_heap_u32(&mut self, dest: u64, value: u32)
        requires
            old(self).wf(),
            dest + 4 <= old(self)@.heap.len(),
        ensures
            final(self).wf(),
            final(self)@ == (VmModel {
                heap: heap_write(old(self)@.heap, dest as int, le_bytes(value as nat, 4)),
                ..old(self)@
            }),
    {
        self.store_heap(dest, value as u64, 4);
    }

    /// Writes eight little-endian bytes at heap address `dest`.
    pub fn set_heap_u64(&mut self, dest: u64, value: u64)
        requires
            old(self).wf(),
            dest + 8 <= old(self)@.heap.len(),
        ensures
            final(self).wf(),
            final(self)@ == (VmModel {
                heap: heap_write(old(self)@.heap, dest as int, le_bytes(value as nat, 8)),
                ..old(self)@
            }),
    {
        self.store_heap(dest, value, 8);
    }

    /// Decodes the instruction at the program counter without touching any
    /// state, mirroring [`spec_decode`] byte for byte.
    fn decode_next(&self) -> (r: Result<(Instruction, usize), BitBoxError>)
        requires
            self.wf(),
        ensures
            r matches Ok(p) ==> (spec_decode(self@.program, self@.pc) matches DecodeResult::DOk(
                im,
                n,
            ) && p.0@ == im && p.1 == n),
            r matches Err(e) ==> (spec_decode(self@.program, self@.pc) matches
            DecodeResult::DFault(f) && fault_matches(e, f)),
    {
        let plen = self.program.len();
        let pc = self.pc;
        if pc >= plen {
            return Err(BitBoxError::PcOutOfBounds);
        }
        let ob = self.program[pc];
        let opcode = match Opcode::try_from(ob) {
            Ok(op) => op,
            Err(e) => {
                return Err(e);
            },
        };
        if pc + 1 >= plen {
            return Err(BitBoxError::PcOutOfBounds);
        }
        let tb = self.program[pc + 1];
        let ty = match Type::try_from(tb) {
            Ok(t) => t,
            Err(e) => {
                return Err(e);
            },
        };
        let i0 = pc + 2;
        match opcode.form() {
            Form::FNoArgs => {
                let instr = Instruction { opcode, ty, data: Data::NoArgs };
                Ok((instr, i0))
            },
            Form::FReg1 => {
                if plen - i0 < 1 {
                    return Err(BitBoxError::PcOutOfBounds);
                }
                let b0 = self.program[i0];
                if b0 >= 32 {
                    return Err(BitBoxError::RegisterOutOfBounds(b0, crate::lexer::Span::zero()));
                }
                let instr = Instruction { opcode, ty, data: Data::Reg1(Register(b0)) };
                Ok((instr, i0 + 1))
            },
            Form::FReg2 => {
                if plen - i0 < 2 {
                    return Err(BitBoxError::PcOutOfBounds);
                }
                let b0 = self.program[i0];
                if b0 >= 32 {
                    return Err(BitBoxError::RegisterOutOfBounds(b0, crate::lexer::Span::zero()));
                }
                let b1 = self.program[i0 + 1];
                if b1 >= 32 {
                    return Err(BitBoxError::RegisterOutOfBounds(b1, crate::lexer::Span::zero()));
                }
                let instr = Instruction { opcode, ty, data: Data::Reg2(Register(b0), Register(b1)) };
                Ok((instr, i0 + 2))
            },
            Form::FReg3 => {
                if plen - i0 < 3 {
                    return Err(BitBoxError::PcOutOfBounds);
                }
                let b0 = self.program[i0];
                if b0 >= 32 {
                    return Err(BitBoxError::RegisterOutOfBounds(b0, crate::lexer::Span::zero()));
                }
                let b1 = self.program[i0 + 1];
                if b1 >= 32 {
                    return Err(BitBoxError::RegisterOutOfBounds(b1, crate::lexer::Span::zero()));
                }
                let b2 = self.program[i0 + 2];
                if b2 >= 32 {
                    return Err(BitBoxError::RegisterOutOfBounds(b2, crate::lexer::Span::zero()));
                }
                let instr = Instruction {
                    opcode,
                    ty,
                    data: Data::Reg3(Register(b0), Register(b1), Register(b2)),
                };
                Ok((instr, i0 + 3))
            },
            Form::FImm => {
                if plen - i0 < 1 {
                    return Err(BitBoxError::PcOutOfBounds);
                }
                let b0 = self.program[i0];
                if b0 >= 32 {
                    return Err(BitBoxError::RegisterOutOfBounds(b0, crate::lexer::Span::zero()));
                }
                let w = ty.width_bytes() as usize;
                if plen - (i0 + 1) < w {
                    return Err(BitBoxError::PcOutOfBounds);
                }
                let mut imm: Vec<u8> = Vec::new();
                let mut k: usize = 0;
                while k < w
                    invariant
                        k <= w,
                        i0 + 1 + w <= plen,
                        plen == self.program@.len(),
                        imm@ =~= self.program@.subrange(i0 + 1, i0 + 1 + k),
                    decreases w - k,
                {
                    imm.push(self.program[i0 + 1 + k]);
                    k = k + 1;
                    assert(imm@ =~= self.program@.subrange(i0 + 1, i0 + 1 + k));
                }
                let instr = Instruction { opcode, ty, data: Data::Imm(Register(b0), Imm(imm)) };
                Ok((instr, i0 + 1 + w))
            },
            Form::FLabel => {
                if plen - i0 < 4 {
                    return Err(BitBoxError::PcOutOfBounds);
                }
                let addr = self.read_target(i0);
                let instr = Instruction { opcode, ty, data: Data::Label(Target::Addr(addr)) };
                Ok((instr, i0 + 4))
            },
            Form::FReg2Label => {
                if plen - i0 < 6 {
                    return Err(BitBoxError::PcOutOfBounds);
                }
                let b0 = self.program[i0];
                if b0 >= 32 {
                    return Err(BitBoxError::RegisterOutOfBounds(b0, crate::lexer::Span::zero()));
                }
                let b1 = self.program[i0 + 1];
                if b1 >= 32 {
                    return Err(BitBoxError::RegisterOutOfBounds(b1, crate::lexer::Span::zero()));
                }
                let addr = self.read_target(i0 + 2);
                let instr = Instruction {
                    opcode,
                    ty,
                    data: Data::Reg2Label(Register(b0), Register(b1), Target::Addr(addr)),
                };
                Ok((instr, i0 + 6))
            },
        }
    }

    /// Reads a four-byte little-endian target at `i`.
    fn read_target(&self, i: usize) -> (r: u32)
        requires
            i + 4 <= self@.program.len(),
        ensures
            r == le_value(self@.program.subrange(i as int, i + 4)) as u32,
    {
        let n = self.program.len();
        let mut tmp: Vec<u8> = Vec::new();
        tmp.push(self.program[i]);
        tmp.push(self.program[i + 1]);
        tmp.push(self.program[i + 2]);
        tmp.push(self.program[i + 3]);
        assert(tmp@ =~= self@.program.subrange(i as int, i + 4));
        let v = crate::encoding::le_value_of(tmp.as_slice());
        proof {
            lemma_le_value_bound(tmp@);
            lemma_pow256_values();
        }
        v as u32
    }

    /// Executes exactly one fetch/decode/execute step: the step that
    /// [`vm_step`] specifies.  On a fault the state is unchanged and the
    /// fault's error is returned.
    pub fn execute(&mut self) -> (r: Result<(), BitBoxError>)
        requires
            old(self).wf(),
        ensures
            final(self).wf(),
            r is Ok ==> (vm_step(old(self)@) matches StepResult::Next(s2) && final(self)@ == s2),
            r matches Err(e) ==> (vm_step(old(self)@) matches StepResult::Fault(f) && fault_matches(
                e,
                f,
            ) && final(self)@ == old(self)@),
    {
        let (instr, npc) = match self.decode_next() {
            Ok(p) => p,
            Err(e) => {
                return Err(e);
            },
        };
        let ghost im = instr@;
        let ghost s1 = VmModel { pc: npc as int, ..old(self)@ };
        proof {
            lemma_decode_wf(old(self)@.program, old(self)@.pc);
            assert(vm_step(old(self)@) == apply_instr(s1, im));
        }
        let ty = instr.ty;
        match (instr.opcode, instr.data) {
            (Opcode::Load, Data::Imm(r, imm)) => {
                let v = imm_value(&imm);
                self.set_regester(r.0, v);
                self.pc = npc;
                proof {
                    assert(self@ =~= (VmModel {
                        regs: s1.regs.update(r.0 as int, imm_reg_value(imm@)),
                        ..s1
                    }));
                }
                Ok(())
            },
            (Opcode::Store, Data::Reg2(d, src)) => {
                let addr = self.get_regester(d.0);
                let w = ty.width_bytes();
                let hl = self.heap.len();
                if addr > hl as u64 || w as u64 > hl as u64 - addr {
                    return Err(BitBoxError::HeapOutOfBounds);
                }
                let value = self.get_regester(src.0);
                self.store_heap(addr, value, w);
                self.pc = npc;
                proof {
                    assert(self@ =~= (VmModel {
                        heap: heap_write(
                            s1.heap,
                            s1.regs[d.0 as int] as int,
                            le_bytes(s1.regs[src.0 as int] as nat, type_width_bytes(ty)),
                        ),
                        ..s1
                    }));
                }
                Ok(())
            },
            (Opcode::Copy, Data::Reg2(d, src)) => {
                let v = self.get_regester(src.0);
                self.set_regester(d.0, v);
                self.pc = npc;
                proof {
                    assert(self@ =~= (VmModel {
                        regs: s1.regs.update(d.0 as int, s1.regs[src.0 as int]),
                        ..s1
                    }));
                }
                Ok(())
            },
            (Opcode::Aloc, Data::Reg2(_, src)) => {
                let n = self.get_regester(src.0);
                let hl = self.heap.len();
                if n > (usize::MAX - hl) as u64 {
                    return Err(BitBoxError::HeapOutOfBounds);
                }
                let ghost orig_heap = self.heap@;
                let mut j: u64 = 0;
                while j < n
                    invariant
                        j <= n,
                        self.regesters@ == old(self)@.regs,
                        self.program@ == old(self)@.program,
                        self.stack@ == old(self)@.stack,
                        self.pc == old(self)@.pc,
                        self.running == old(self)@.running,
                        self.output@ == old(self)@.output,
                        self.heap@ =~= orig_heap + zero_bytes(j as nat),
                    decreases n - j,
                {
                    self.heap.push(0);
                    j = j + 1;
                    assert(self.heap@ =~= orig_heap + zero_bytes(j as nat));
                }
                self.pc = npc;
                proof {
                    assert(self@ =~= (VmModel { heap: s1.heap + zero_bytes(n as nat), ..s1 }));
                }
                Ok(())
            },
            (Opcode::Push, Data::Reg1(r)) => {
                let v = self.get_regester(r.0);
                self.push_to_stack(v);
                self.pc = npc;
                proof {
                    assert(self@ =~= (VmModel { stack: s1.stack.push(s1.regs[r.0 as int]), ..s1 }));
                }
                Ok(())
            },
            (Opcode::Pop, Data::Reg1(r)) => {
                if self.stack.len() == 0 {
                    return Err(BitBoxError::StackUnderflow);
                }
                let v = self.pop_from_stack();
                self.set_regester(r.0, v);
                self.pc = npc;
                proof {
                    assert(self@ =~= (VmModel {
                        regs: s1.regs.update(r.0 as int, s1.stack.last()),
                        stack: s1.stack.drop_last(),
                        ..s1
                    }));
                }
                Ok(())
            },
            (Opcode::Add, Data::Reg3(d, l, r)) => {
                let v = self.get_regester(l.0).wrapping_add(self.get_regester(r.0));
                self.set_regester(d.0, v);
                self.pc = npc;
                proof {
                    assert(self@ =~= (VmModel {
                        regs: s1.regs.update(
                            d.0 as int,
                            vstd::wrapping::u64_specs::wrapping_add(
                                s1.regs[l.0 as int],
                                s1.regs[r.0 as int],
                            ),
                        ),
                        ..s1
                    }));
                }
                Ok(())
            },
            (Opcode::Sub, Data::Reg3(d, l, r)) => {
                let v = self.get_regester(l.0).wrapping_sub(self.get_regester(r.0));
                self.set_regester(d.0, v);
                self.pc = npc;
                proof {
                    assert(self@ =~= (VmModel {
                        regs: s1.regs.update(
                            d.0 as int,
                            vstd::wrapping::u64_specs::wrapping_sub(
                                s1.regs[l.0 as int],
                                s1.regs[r.0 as int],
                            ),
                        ),
                        ..s1
                    }));
                }
                Ok(())
            },
            (Opcode::Div, Data::Reg3(d, l, r)) => {
                let rhs = self.get_regester(r.0);
                if rhs == 0 {
                    return Err(BitBoxError::DivisionByZero);
                }
                let v = self.get_regester(l.0) / rhs;
                self.set_regester(d.0, v);
                self.pc = npc;
                proof {
                    assert(self@ =~= (VmModel {
                        regs: s1.regs.update(
                            d.0 as int,
                            (s1.regs[l.0 as int] / s1.regs[r.0 as int]) as u64,
                        ),
                        ..s1
                    }));
                }
                Ok(())
            },
            (Opcode::Mul, Data::Reg3(d, l, r)) => {
                let v = self.get_regester(l.0).wrapping_mul(self.get_regester(r.0));
                self.set_regester(d.0, v);
                self.pc = npc;
                proof {
                    assert(self@ =~= (VmModel {
                        regs: s1.regs.update(
                            d.0 as int,
                            vstd::wrapping::u64_specs::wrapping_mul(
                                s1.regs[l.0 as int],
                                s1.regs[r.0 as int],
                            ),
                        ),
                        ..s1
                    }));
                }
                Ok(())
            },
            (Opcode::Inc, Data::Reg1(r)) => {
                let v = self.get_regester(r.0).wrapping_add(1);
                self.set_regester(r.0, v);
                self.pc = npc;
                proof {
                    assert(self@ =~= (VmModel {
                        regs: s1.regs.update(
                            r.0 as int,
                            vstd::wrapping::u64_specs::wrapping_add(s1.regs[r.0 as int], 1),
                        ),
                        ..s1
                    }));
                }
                Ok(())
            },
            (Opcode::Eq, Data::Reg3(d, l, r)) => {
                let v: u64 = if self.get_regester(l.0) == self.get_regester(r.0) {
                    1
                } else {
                    0
                };
                self.set_regester(d.0, v);
                self.pc = npc;
                proof {
                    assert(self@ =~= (VmModel {
                        regs: s1.regs.update(
                            d.0 as int,
                            if s1.regs[l.0 as int] == s1.regs[r.0 as int] {
                                1u64
                            } else {
                                0u64
                            },
                        ),
                        ..s1
                    }));
                }
                Ok(())
            },
            (Opcode::Jne, Data::Reg2Label(l, r, Target::Addr(t))) => {
                if self.get_regester(l.0) != self.get_regester(r.0) {
                    self.pc = t as usize;
                    proof {
                        assert(self@ =~= (VmModel { pc: t as int, ..s1 }));
                    }
                } else {
                    self.pc = npc;
                    proof {
                        assert(self@ =~= s1);
                    }
                }
                Ok(())
            },
            (Opcode::Hult, Data::NoArgs) => {
                self.running = false;
                self.pc = npc;
                proof {
                    assert(self@ =~= (VmModel { running: false, ..s1 }));
                }
                Ok(())
            },
            (Opcode::PrintReg, Data::Reg1(r)) => {
                let v = self.get_regester(r.0);
                let mut digits = dec_bytes(v);
                self.output.append(&mut digits);
                self.output.push(10);
                self.pc = npc;
                proof {
                    assert(self@.output =~= s1.output + dec_digits(s1.regs[r.0 as int] as nat)
                        + seq![10u8]);
                    assert(self@ =~= (VmModel {
                        output: s1.output + dec_digits(s1.regs[r.0 as int] as nat) + seq![10u8],
                        ..s1
                    }));
                }
                Ok(())
            },
            (Opcode::Call, Data::Label(Target::Addr(t))) => {
                self.stack.push(npc as u64);
                self.pc = t as usize;
                proof {
                    assert(self@ =~= (VmModel {
                        stack: s1.stack.push(s1.pc as u64),
                        pc: t as int,
                        ..s1
                    }));
                }
                Ok(())
            },
            (Opcode::And, Data::Reg3(d, l, r)) => {
                let v = self.get_regester(l.0) & self.get_regester(r.0);
                self.set_regester(d.0, v);
                self.pc = npc;
                proof {
                    assert(self@ =~= (VmModel {
                        regs: s1.regs.update(d.0 as int, s1.regs[l.0 as int] & s1.regs[r.0 as int]),
                        ..s1
                    }));
                }
                Ok(())
            },
            (Opcode::Or, Data::Reg3(d, l, r)) => {
                let v = self.get_regester(l.0) | self.get_regester(r.0);
                self.set_regester(d.0, v);
                self.pc = npc;
                proof {
                    assert(self@ =~= (VmModel {
                        regs: s1.regs.update(d.0 as int, s1.regs[l.0 as int] | s1.regs[r.0 as int]),
                        ..s1
                    }));
                }
                Ok(())
            },
            (Opcode::Shr, Data::Reg3(d, l, r)) => {
                let rhs = self.get_regester(r.0);
                let v: u64 = if rhs < 64 {
                    self.get_regester(l.0) >> rhs
                } else {
                    0
                };
                self.set_regester(d.0, v);
                self.pc = npc;
                proof {
                    assert(self@ =~= (VmModel {
                        regs: s1.regs.update(
                            d.0 as int,
                            if s1.regs[r.0 as int] < 64 {
                                s1.regs[l.0 as int] >> s1.regs[r.0 as int]
                            } else {
                                0u64
                            },
                        ),
                        ..s1
                    }));
                }
                Ok(())
            },
            (Opcode::Return, Data::NoArgs) => {
                let sl = self.stack.len();
                if sl == 0 {
                    return Err(BitBoxError::StackUnderflow);
                }
                let v = self.stack[sl - 1];
                if v > usize::MAX as u64 {
                    return Err(BitBoxError::PcOutOfBounds);
                }
                let _ = self.pop_from_stack();
                self.pc = v as usize;
                proof {
                    assert(self@ =~= (VmModel {
                        pc: s1.stack.last() as int,
                        stack: s1.stack.drop_last(),
                        ..s1
                    }));
                }
                Ok(())
            },
            (Opcode::Syscall, Data::NoArgs) => {
                let r0 = self.get_regester(0);
                if r0 != 0 {
                    return Err(BitBoxError::InvalidSyscall(r0));
                }
                let ptr = self.get_regester(1);
                let len = self.get_regester(2);
                let hl = self.heap.len();
                if ptr > hl as u64 || len > hl as u64 - ptr {
                    return Err(BitBoxError::HeapOutOfBounds);
                }
                let ghost orig_out = self.output@;
                let mut j: u64 = 0;
                while j < len
                    invariant
                        j <= len,
                        ptr + len <= self.heap@.len(),
                        self.heap@.len() <= usize::MAX,
                        self.regesters@ == old(self)@.regs,
                        self.program@ == old(self)@.program,
                        self.stack@ == old(self)@.stack,
                        self.heap@ == old(self)@.heap,
                        self.pc == old(self)@.pc,
                        self.running == old(self)@.running,
                        self.output@ =~= orig_out + self.heap@.subrange(
                            ptr as int,
                            ptr as int + j as int,
                        ),
                    decreases len - j,
                {
                    let b = self.heap[(ptr + j) as usize];
                    self.output.push(b);
                    j = j + 1;
                    assert(self.output@ =~= orig_out + self.heap@.subrange(
                        ptr as int,
                        ptr as int + j as int,
                    ));
                }
                self.pc = npc;
                proof {
                    assert(self@ =~= (VmModel {
                        output: s1.output + s1.heap.subrange(
                            s1.regs[1] as int,
                            s1.regs[1] as int + s1.regs[2] as int,
                        ),
                        ..s1
                    }));
                }
                Ok(())
            },
            _ => {
                // the decoder only builds operands of the opcode's form
                proof {
                    assert(false);
                }
                Err(BitBoxError::PcOutOfBounds)
            },
        }
    }

    /// Runs the fetch/decode/execute loop until `hult` clears the running
    /// flag or a fault stops the machine.  The final state is reached from
    /// the starting state by some number of specification-level steps.
    ///
    /// As a machine limit, the loop gives up with `StepLimitExceeded`, but
    /// only after `u64::MAX` full steps; no reachable workload approaches
    /// that.
    pub fn run(&mut self) -> (r: Result<(), BitBoxError>)
        requires
            old(self).wf(),
        ensures
            final(self).wf(),
            exists|n: nat| steps_n(old(self)@, n) == StepResult::Next(final(self)@),
            r is Ok ==> !final(self)@.running,
            r matches Err(e) ==> final(self)@.running && ((vm_step(final(self)@) matches
            StepResult::Fault(f) && fault_matches(e, f)) || (e is StepLimitExceeded && steps_n(
                old(self)@,
                u64::MAX as nat,
            ) == StepResult::Next(final(self)@))),
    {
        proof {
            assert(steps_n(old(self)@, 0) == StepResult::Next(old(self)@));
        }
        let mut budget: u64 = u64::MAX;
        while self.running
            invariant
                self.wf(),
                budget <= u64::MAX,
                steps_n(old(self)@, (u64::MAX - budget) as nat) == StepResult::Next(self@),
            decreases budget,
        {
            if budget == 0 {
                return Err(BitBoxError::StepLimitExceeded);
            }
            let ghost done = (u64::MAX - budget) as nat;
            budget = budget - 1;
            let ghost pre = self@;
            match self.execute() {
                Ok(()) => {
                    proof {
                        lemma_steps_snoc(old(self)@, done, pre);
                        assert(steps_n(old(self)@, (u64::MAX - budget) as nat)
                            == StepResult::Next(self@));
                    }
                },
                Err(e) => {
                    proof {
                        assert(steps_n(old(self)@, done) == StepResult::Next(self@));
                    }
                    return Err(e);
                },
            }
        }
        Ok(())
    }
}

/// Reads the 64-bit value of an immediate: its low eight bytes.
fn imm_value(imm: &Imm) -> (r: u64)
    ensures
        r == imm_reg_value(imm@),
{
    let len = imm.0.len();
    let m = if len > 8 {
        8
    } else {
        len
    };
    let mut tmp: Vec<u8> = Vec::new();
    let mut k: usize = 0;
    while k < m
        invariant
            k <= m,
            m <= imm.0@.len(),
            tmp@ =~= imm.0@.subrange(0, k as int),
        decreases m - k,
    {
        tmp.push(imm.0[k]);
        k = k + 1;
        assert(tmp@ =~= imm.0@.subrange(0, k as int));
    }
    let v = crate::encoding::le_value_of(tmp.as_slice());
    proof {
        if imm.0@.len() <= 8 {
            assert(imm.0@.subrange(0, imm.0@.len() as int) =~= imm.0@);
        }
    }
    v
}

/// A decoded instruction is well formed and resolved, and decoding ends
/// exactly one encoded size past where it began, within the image.
pub proof fn lemma_decode_wf(p: Seq<u8>, pc: int)
    ensures
        spec_decode(p, pc) matches DecodeResult::DOk(i, n) ==> ({
            &&& crate::instructions::wf_instr(i)
            &&& crate::instructions::data_resolved(i.data)
            &&& n == pc + crate::instructions::instr_size(i)
            &&& 0 <= pc
            &&& pc + 2 <= n <= p.len()
        }),
{
    if pc >= 0 && pc + 2 <= p.len() {
        match spec_opcode_of_byte(p[pc]) {
            Option::Some(op) => {
                match spec_type_of_byte(p[pc + 1]) {
                    Option::Some(ty) => {
                        match opcode_form(op) {
                            Form::FNoArgs => {},
                            Form::FReg1 => {},
                            Form::FReg2 => {},
                            Form::FReg3 => {},
                            Form::FImm => {},
                            Form::FLabel => {},
                            Form::FReg2Label => {},
                        }
                    },
                    Option::None => {},
                }
            },
            Option::None => {},
        }
    }
}

/// The register an instruction writes, if it writes one.  Every other
/// register is left untouched by the step ([`lemma_register_isolation`]).
pub open spec fn written_reg(i: InstrModel) -> Option<u8> {
    match (i.opcode, i.data) {
        (Opcode::Load, DataModel::Imm(r, _)) => Some(r),
        (Opcode::Copy, DataModel::Reg2(d, _)) => Some(d),
        (Opcode::Pop, DataModel::Reg1(r)) => Some(r),
        (Opcode::Inc, DataModel::Reg1(r)) => Some(r),
        (Opcode::Add, DataModel::Reg3(d, _, _)) => Some(d),
        (Opcode::Sub, DataModel::Reg3(d, _, _)) => Some(d),
        (Opcode::Div, DataModel::Reg3(d, _, _)) => Some(d),
        (Opcode::Mul, DataModel::Reg3(d, _, _)) => Some(d),
        (Opcode::Eq, DataModel::Reg3(d, _, _)) => Some(d),
        (Opcode::And, DataModel::Reg3(d, _, _)) => Some(d),
        (Opcode::Or, DataModel::Reg3(d, _, _)) => Some(d),
        (Opcode::Shr, DataModel::Reg3(d, _, _)) => Some(d),
        _ => None,
    }
}

/// Register isolation, one step: a step changes no register other than the
/// decoded instruction's destination, and never the register count or the
/// image.
pub proof fn lemma_register_isolation(s: VmModel, t: VmModel, r: u8)
    requires
        vm_step(s) == StepResult::Next(t),
        s.regs.len() == 32,
        r < s.regs.len(),
    ensures
        t.regs.len() == s.regs.len(),
        t.program == s.program,
        (match spec_decode(s.program, s.pc) {
            DecodeResult::DOk(i, _) => written_reg(i) != Some(r),
            DecodeResult::DFault(_) => true,
        }) ==> t.regs[r as int] == s.regs[r as int],
{
    lemma_decode_wf(s.program, s.pc);
    match spec_decode(s.program, s.pc) {
        DecodeResult::DOk(i, n) => {
            let s1 = VmModel { pc: n, ..s };
            assert(vm_step(s) == apply_instr(s1, i));
            match (i.opcode, i.data) {
                (Opcode::Load, DataModel::Imm(_, _)) => {},
                (Opcode::Store, DataModel::Reg2(_, _)) => {},
                (Opcode::Copy, DataModel::Reg2(_, _)) => {},
                (Opcode::Aloc, DataModel::Reg2(_, _)) => {},
                (Opcode::Push, DataModel::Reg1(_)) => {},
                (Opcode::Pop, DataModel::Reg1(_)) => {},
                (Opcode::Add, DataModel::Reg3(_, _, _)) => {},
                (Opcode::Sub, DataModel::Reg3(_, _, _)) => {},
                (Opcode::Div, DataModel::Reg3(_, _, _)) => {},
                (Opcode::Mul, DataModel::Reg3(_, _, _)) => {},
                (Opcode::Inc, DataModel::Reg1(_)) => {},
                (Opcode::Eq, DataModel::Reg3(_, _, _)) => {},
                (Opcode::Jne, DataModel::Reg2Label(_, _, _)) => {},
                (Opcode::Hult, DataModel::NoArgs) => {},
                (Opcode::PrintReg, DataModel::Reg1(_)) => {},
                (Opcode::Call, DataModel::Label(_)) => {},
                (Opcode::And, DataModel::Reg3(_, _, _)) => {},
                (Opcode::Or, DataModel::Reg3(_, _, _)) => {},
                (Opcode::Shr, DataModel::Reg3(_, _, _)) => {},
                (Opcode::Return, DataModel::NoArgs) => {},
                (Opcode::Syscall, DataModel::NoArgs) => {},
                _ => {
                    assert(false);
                },
            }
        },
        DecodeResult::DFault(_) => {},
    }
}

/// Whether `r` is the destination of none of the `n` instructions the
/// machine steps through from `s`.
pub open spec fn reg_untouched(s: VmModel, n: nat, r: u8) -> bool
    decreases n,
{
    n == 0 || (match vm_step(s) {
        StepResult::Next(t) => (match spec_decode(s.program, s.pc) {
            DecodeResult::DOk(i, _) => written_reg(i) != Some(r),
            DecodeResult::DFault(_) => true,
        }) && reg_untouched(t, (n - 1) as nat, r),
        StepResult::Fault(_) => true,
    })
}

/// Register isolation over a run: a register that no instruction along the
/// way lists as its destination still holds its starting value.
pub proof fn lemma_register_isolation_run(s: VmModel, n: nat, r: u8, t: VmModel)
    requires
        steps_n(s, n) == StepResult::Next(t),
        reg_untouched(s, n, r),
        s.regs.len() == 32,
        r < s.regs.len(),
    ensures
        t.regs.len() == s.regs.len(),
        t.regs[r as int] == s.regs[r as int],
    decreases n,
{
    if n > 0 {
        match vm_step(s) {
            StepResult::Next(s2) => {
                lemma_register_isolation(s, s2, r);
                lemma_register_isolation_run(s2, (n - 1) as nat, r, t);
            },
            StepResult::Fault(_) => {},
        }
    }
}

/// Decoding inverts encoding: where the image holds the encoding of a
/// well-formed, resolved instruction, the decoder returns that instruction
/// and advances the program counter by exactly its encoded size.
pub proof fn lemma_decode_encode(p: Seq<u8>, pc: int, i: InstrModel)
    requires
        wf_instr(i),
        data_resolved(i.data),
        0 <= pc,
        pc + instr_size(i) <= p.len(),
        p.subrange(pc, pc + instr_size(i)) == encode_instr(i),
    ensures
        spec_decode(p, pc) == DecodeResult::DOk(i, pc + instr_size(i)),
{
    lemma_encode_data_len(i.data);
    let enc = encode_instr(i);
    let sz = instr_size(i);
    let i0 = pc + 2;
    let ed = encode_data(i.data);
    assert(enc.len() == sz);
    assert(p[pc] == opcode_byte(i.opcode)) by {
        assert(p.subrange(pc, pc + sz)[0] == p[pc]);
        assert(enc[0] == opcode_byte(i.opcode));
    }
    lemma_opcode_byte_round_trip(i.opcode);
    assert(p[pc + 1] == type_byte(i.ty)) by {
        assert(p.subrange(pc, pc + sz)[1] == p[pc + 1]);
        assert(enc[1] == type_byte(i.ty));
    }
    lemma_type_byte_round_trip(i.ty);
    match i.data {
        DataModel::NoArgs => {
            assert(spec_decode(p, pc) == DecodeResult::DOk(i, pc + sz));
        },
        DataModel::Reg1(a) => {
            assert(p[i0] == a) by {
                assert(p.subrange(pc, pc + sz)[2] == p[pc + 2]);
                assert(enc[2] == ed[0]);
            }
            assert(spec_decode(p, pc) == DecodeResult::DOk(i, pc + sz));
        },
        DataModel::Reg2(a, b) => {
            assert(p[i0] == a && p[i0 + 1] == b) by {
                assert(p.subrange(pc, pc + sz)[2] == p[pc + 2]);
                assert(enc[2] == ed[0]);
                assert(p.subrange(pc, pc + sz)[3] == p[pc + 3]);
                assert(enc[3] == ed[1]);
            }
            assert(spec_decode(p, pc) == DecodeResult::DOk(i, pc + sz));
        },
        DataModel::Reg3(a, b, c) => {
            assert(p[i0] == a && p[i0 + 1] == b && p[i0 + 2] == c) by {
                assert(p.subrange(pc, pc + sz)[2] == p[pc + 2]);
                assert(enc[2] == ed[0]);
                assert(p.subrange(pc, pc + sz)[3] == p[pc + 3]);
                assert(enc[3] == ed[1]);
                assert(p.subrange(pc, pc + sz)[4] == p[pc + 4]);
                assert(enc[4] == ed[2]);
            }
            assert(spec_decode(p, pc) == DecodeResult::DOk(i, pc + sz));
        },
        DataModel::Imm(a, imm) => {
            assert(imm.len() == type_width_bytes(i.ty));
            assert(p[i0] == a) by {
                assert(p.subrange(pc, pc + sz)[2] == p[pc + 2]);
                assert(enc[2] == ed[0]);
            }
            assert forall|j: int| 0 <= j < imm.len() implies p.subrange(
                i0 + 1,
                i0 + 1 + imm.len(),
            )[j] == imm[j] by {
                assert(p.subrange(i0 + 1, i0 + 1 + imm.len())[j] == p[i0 + 1 + j]);
                assert(p.subrange(pc, pc + sz)[3 + j] == p[pc + 3 + j]);
                assert(enc[3 + j] == ed[1 + j]);
                assert(ed[1 + j] == imm[j]);
            }
            assert(p.subrange(i0 + 1, i0 + 1 + imm.len()) =~= imm);
            assert(spec_decode(p, pc) == DecodeResult::DOk(i, pc + sz));
        },
        DataModel::Label(t) => {
            match t {
                TargetModel::Addr(addr) => {
                    crate::encoding::lemma_le_bytes_len(addr as nat, 4);
                    assert forall|j: int| 0 <= j < 4 implies p.subrange(i0, i0 + 4)[j] == le_bytes(
                        addr as nat,
                        4,
                    )[j] by {
                        assert(p.subrange(i0, i0 + 4)[j] == p[i0 + j]);
                        assert(p.subrange(pc, pc + sz)[2 + j] == p[pc + 2 + j]);
                        assert(enc[2 + j] == ed[j]);
                    }
                    assert(p.subrange(i0, i0 + 4) =~= le_bytes(addr as nat, 4));
                    lemma_pow256_values();
                    crate::encoding::lemma_le_round_trip(addr as nat, 4);
                    assert(le_value(p.subrange(i0, i0 + 4)) == addr as nat);
                    assert(spec_decode(p, pc) == DecodeResult::DOk(i, pc + sz));
                },
                TargetModel::Sym(_) => {},
            }
        },
        DataModel::Reg2Label(a, b, t) => {
            match t {
                TargetModel::Addr(addr) => {
                    crate::encoding::lemma_le_bytes_len(addr as nat, 4);
                    assert(p[i0] == a && p[i0 + 1] == b) by {
                        assert(p.subrange(pc, pc + sz)[2] == p[pc + 2]);
                        assert(enc[2] == ed[0]);
                        assert(p.subrange(pc, pc + sz)[3] == p[pc + 3]);
                        assert(enc[3] == ed[1]);
                    }
                    assert forall|j: int| 0 <= j < 4 implies p.subrange(i0 + 2, i0 + 6)[j]
                        == le_bytes(addr as nat, 4)[j] by {
                        assert(p.subrange(i0 + 2, i0 + 6)[j] == p[i0 + 2 + j]);
                        assert(p.subrange(pc, pc + sz)[4 + j] == p[pc + 4 + j]);
                        assert(enc[4 + j] == ed[2 + j]);
                        assert(ed[2 + j] == le_bytes(addr as nat, 4)[j]);
                    }
                    assert(p.subrange(i0 + 2, i0 + 6) =~= le_bytes(addr as nat, 4));
                    lemma_pow256_values();
                    crate::encoding::lemma_le_round_trip(addr as nat, 4);
                    assert(le_value(p.subrange(i0 + 2, i0 + 6)) == addr as nat);
                    assert(spec_decode(p, pc) == DecodeResult::DOk(i, pc + sz));
                },
                TargetModel::Sym(_) => {},
            }
        },
    }
}

/// A step at an instruction that transfers no control advances the program
/// counter by exactly the instruction's encoded size; `jne`, `call` and
/// `return` may reassign it after that advance.
pub proof fn lemma_step_pc(s: VmModel, t: VmModel)
    requires
        vm_step(s) == StepResult::Next(t),
    ensures
        spec_decode(s.program, s.pc) matches DecodeResult::DOk(i, n) && ({
            &&& n == s.pc + instr_size(i)
            &&& (!(i.opcode is Jne || i.opcode is Call || i.opcode is Return) ==> t.pc == n)
        }),
{
    lemma_decode_wf(s.program, s.pc);
    match spec_decode(s.program, s.pc) {
        DecodeResult::DOk(i, n) => {
            let s1 = VmModel { pc: n, ..s };
            assert(vm_step(s) == apply_instr(s1, i));
            match (i.opcode, i.data) {
                (Opcode::Load, DataModel::Imm(_, _)) => {},
                (Opcode::Store, DataModel::Reg2(_, _)) => {},
                (Opcode::Copy, DataModel::Reg2(_, _)) => {},
                (Opcode::Aloc, DataModel::Reg2(_, _)) => {},
                (Opcode::Push, DataModel::Reg1(_)) => {},
                (Opcode::Pop, DataModel::Reg1(_)) => {},
                (Opcode::Add, DataModel::Reg3(_, _, _)) => {},
                (Opcode::Sub, DataModel::Reg3(_, _, _)) => {},
                (Opcode::Div, DataModel::Reg3(_, _, _)) => {},
                (Opcode::Mul, DataModel::Reg3(_, _, _)) => {},
                (Opcode::Inc, DataModel::Reg1(_)) => {},
                (Opcode::Eq, DataModel::Reg3(_, _, _)) => {},
                (Opcode::Jne, DataModel::Reg2Label(_, _, _)) => {},
                (Opcode::Hult, DataModel::NoArgs) => {},
                (Opcode::PrintReg, DataModel::Reg1(_)) => {},
                (Opcode::Call, DataModel::Label(_)) => {},
                (Opcode::And, DataModel::Reg3(_, _, _)) => {},
                (Opcode::Or, DataModel::Reg3(_, _, _)) => {},
                (Opcode::Shr, DataModel::Reg3(_, _, _)) => {},
                (Opcode::Return, DataModel::NoArgs) => {},
                (Opcode::Syscall, DataModel::NoArgs) => {},
                _ => {
                    assert(false);
                },
            }
        },
        DecodeResult::DFault(_) => {},
    }
}

} // verus!
