//! Boundary behaviors: rejected registers, empty allocations, stack
//! underflow, degenerate literals, and repeated entry directives.

use bitbox::assembler::assemble;
use bitbox::error::BitBoxError;
use bitbox::parser::ParserError;
use bitbox::vm::Vm;

/// A minimal image: the 64-byte header with entry offset 64, then `code`.
fn image_with_code(code: &[u8]) -> Vec<u8> {
    let mut image = vec![0x42, 0x42, 0x56, 0x4d];
    image.extend_from_slice(&(code.len() as u32).to_le_bytes());
    image.extend_from_slice(&64u32.to_le_bytes());
    image.resize(64, 0);
    image.extend_from_slice(code);
    image
}

#[test]
fn register_32_rejected_at_assembly() {
    let src = "
        .entry main
        main:
            load[u8] %32 1
            hult
        ";
    let err = assemble(src).unwrap_err();
    match err {
        BitBoxError::Parser(errors) => {
            assert!(errors
                .iter()
                .any(|e| matches!(e, ParserError::RegisterOutOfBounds(32, _))));
        }
        other => panic!("expected a parse error batch, got {:?}", other),
    }
}

#[test]
fn register_32_rejected_at_decode() {
    // push (opcode 4), type u8 (8), register byte 32
    let image = image_with_code(&[4, 8, 32]);
    let mut vm = Vm::new(image).unwrap();
    let err = vm.run().unwrap_err();
    assert!(matches!(err, BitBoxError::RegisterOutOfBounds(32, _)));
}

#[test]
fn aloc_of_zero_is_noop() {
    let src = "
        .entry main
        main:
            aloc[u8] %1 %0
            hult
        ";
    let program = assemble(src).unwrap();
    let mut vm = Vm::new(program).unwrap();
    vm.run().unwrap();
    assert_eq!(vm.heap.len(), 0);
    assert_eq!(vm.get_regester(1), 0);
}

#[test]
fn pop_on_empty_stack_underflows() {
    let src = "
        .entry main
        main:
            pop[u64] %0
            hult
        ";
    let program = assemble(src).unwrap();
    let mut vm = Vm::new(program).unwrap();
    let err = vm.run().unwrap_err();
    assert!(matches!(err, BitBoxError::StackUnderflow));
}

#[test]
fn return_on_empty_stack_underflows() {
    let src = "
        .entry main
        main:
            return
        ";
    let program = assemble(src).unwrap();
    let mut vm = Vm::new(program).unwrap();
    let err = vm.run().unwrap_err();
    assert!(matches!(err, BitBoxError::StackUnderflow));
}

#[test]
fn hex_literal_without_digits_is_lex_error() {
    let err = bitbox::lexer::lex("0x____").unwrap_err();
    assert!(matches!(err, BitBoxError::InvalidNumber(_)));
}

#[test]
fn bin_literal_without_digits_is_lex_error() {
    let err = bitbox::lexer::lex("0b_").unwrap_err();
    assert!(matches!(err, BitBoxError::InvalidNumber(_)));
}

#[test]
fn decimal_literal_too_large_is_lex_error() {
    let err = bitbox::lexer::lex("18446744073709551616").unwrap_err();
    assert!(matches!(err, BitBoxError::InvalidNumber(_)));
}

#[test]
fn second_entry_directive_overwrites_first() {
    let src = "
        .entry main
        .entry other
        main:
            hult
        other:
            hult
        ";
    let image = assemble(src).unwrap();
    // main sits at 64, other at 66; the later directive wins.
    assert_eq!(&image[8..12], &66u32.to_le_bytes());
}

#[test]
fn unexpected_character_is_lex_error() {
    let err = assemble(".entry main\nmain:\n hult\n@").unwrap_err();
    assert!(matches!(err, BitBoxError::UnexpectedCharacter('@', _)));
}

#[test]
fn missing_entry_point_is_parse_error() {
    let err = assemble("main:\n hult\n").unwrap_err();
    match err {
        BitBoxError::Parser(errors) => {
            assert!(errors
                .iter()
                .any(|e| matches!(e, ParserError::MissingEntryPoint)));
        }
        other => panic!("expected a parse error batch, got {:?}", other),
    }
}

#[test]
fn unknown_call_target_fails_with_its_name() {
    let src = "
        .entry main
        main:
            call nowhere
            hult
        ";
    let err = assemble(src).unwrap_err();
    match err {
        BitBoxError::UnknownLabel(name, _) => assert_eq!(name, "nowhere"),
        other => panic!("expected an unknown label, got {:?}", other),
    }
}

#[test]
fn unknown_entry_label_fails_with_its_name() {
    let err = assemble(".entry ghost\nmain:\n hult\n").unwrap_err();
    match err {
        BitBoxError::UnknownLabel(name, _) => assert_eq!(name, "ghost"),
        other => panic!("expected an unknown label, got {:?}", other),
    }
}

#[test]
fn invalid_opcode_faults() {
    let image = image_with_code(&[99, 0]);
    let mut vm = Vm::new(image).unwrap();
    let err = vm.run().unwrap_err();
    assert!(matches!(err, BitBoxError::InvalidOpcode(99)));
}

#[test]
fn invalid_type_byte_faults() {
    // push (4) with type byte 3, which encodes no width
    let image = image_with_code(&[4, 3, 0]);
    let mut vm = Vm::new(image).unwrap();
    let err = vm.run().unwrap_err();
    assert!(matches!(err, BitBoxError::InvalidType(3)));
}

#[test]
fn fetch_past_image_faults() {
    // a header whose entry offset points past the image
    let mut image = vec![0x42, 0x42, 0x56, 0x4d];
    image.extend_from_slice(&0u32.to_le_bytes());
    image.extend_from_slice(&1000u32.to_le_bytes());
    image.resize(64, 0);
    let mut vm = Vm::new(image).unwrap();
    let err = vm.run().unwrap_err();
    assert!(matches!(err, BitBoxError::PcOutOfBounds));
}

#[test]
fn division_by_zero_faults() {
    let src = "
        .entry main
        main:
            load[u8] %0 1
            div[u8] %2 %0 %1
            hult
        ";
    let program = assemble(src).unwrap();
    let mut vm = Vm::new(program).unwrap();
    let err = vm.run().unwrap_err();
    assert!(matches!(err, BitBoxError::DivisionByZero));
}

#[test]
fn store_outside_heap_faults() {
    let src = "
        .entry main
        main:
            store[u8] %0 %1
            hult
        ";
    let program = assemble(src).unwrap();
    let mut vm = Vm::new(program).unwrap();
    let err = vm.run().unwrap_err();
    assert!(matches!(err, BitBoxError::HeapOutOfBounds));
}

#[test]
fn unknown_syscall_selector_faults() {
    let src = "
        .entry main
        main:
            load[u8] %0 5
            syscall
            hult
        ";
    let program = assemble(src).unwrap();
    let mut vm = Vm::new(program).unwrap();
    let err = vm.run().unwrap_err();
    assert!(matches!(err, BitBoxError::InvalidSyscall(5)));
}

#[test]
fn short_image_rejected() {
    let err = Vm::new(vec![0x42, 0x42, 0x56, 0x4d]).unwrap_err();
    assert!(matches!(err, BitBoxError::InvalidImage));
}

#[test]
fn shift_of_64_or_more_yields_zero() {
    let src = "
        .entry main
        main:
            load[u8] %0 1
            load[u8] %1 64
            shr[u8] %2 %0 %1
            hult
        ";
    let program = assemble(src).unwrap();
    let mut vm = Vm::new(program).unwrap();
    vm.run().unwrap();
    assert_eq!(vm.get_regester(2), 0);
}

#[test]
fn wrapping_addition() {
    let src = "
        .entry main
        main:
            load[u64] %0 18446744073709551615
            load[u64] %1 1
            add[u64] %2 %0 %1
            hult
        ";
    let program = assemble(src).unwrap();
    let mut vm = Vm::new(program).unwrap();
    vm.run().unwrap();
    assert_eq!(vm.get_regester(2), 0);
}

#[test]
fn signed_width_128_is_rejected() {
    let src = "
        .entry main
        main:
            load[i128] %0 1
            hult
        ";
    let err = assemble(src).unwrap_err();
    match err {
        BitBoxError::Parser(errors) => {
            assert!(errors
                .iter()
                .any(|e| matches!(e, ParserError::InvalidImmType(_, _))));
        }
        other => panic!("expected a parse error batch, got {:?}", other),
    }
}
