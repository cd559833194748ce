//! Image format tests: header layout, instruction encodings, symbol
//! resolution, and the diagnostic report format.

use bitbox::assembler::assemble;
use bitbox::error::BitBoxError;
use bitbox::lexer::Span;
use bitbox::vm::Vm;

#[test]
fn load_and_halt() {
    let src = ".entry main\nmain:\n load[u8] %0 100\n hult\n";
    let image = assemble(src).unwrap();
    assert_eq!(&image[0..4], b"BBVM");
    assert_eq!(&image[8..12], &64u32.to_le_bytes());
    let mut vm = Vm::new(image).unwrap();
    vm.run().unwrap();
    assert_eq!(vm.get_regester(0), 100);
    for i in 1..bitbox::vm::REGESTER_COUNT {
        assert_eq!(vm.get_regester(i as u8), 0);
    }
}

#[test]
fn exact_image_bytes() {
    let src = ".entry main\nmain:\n load[u8] %0 100\n hult\n";
    let image = assemble(src).unwrap();
    // header: magic, text length 6, entry 64, reserved zeros
    assert_eq!(image.len(), 70);
    assert_eq!(&image[0..4], &[0x42, 0x42, 0x56, 0x4d]);
    assert_eq!(&image[4..8], &6u32.to_le_bytes());
    assert_eq!(&image[8..12], &64u32.to_le_bytes());
    assert!(image[12..64].iter().all(|&b| b == 0));
    // load = opcode 0, type u8 = 8, register 0, immediate 100
    assert_eq!(&image[64..68], &[0, 8, 0, 100]);
    // hult = opcode 13, type void = 0
    assert_eq!(&image[68..70], &[13, 0]);
}

#[test]
fn sizes_sum_to_image_length() {
    // load[u32] is 7 bytes, push/pop 3 each, add 5, jne 8, call 6,
    // return 2, hult 2
    let src = "
        .entry main
        helper:
            return
        main:
            load[u32] %0 1
            push[u32] %0
            pop[u32] %1
            add[u32] %2 %0 %1
            jne %0 %1 helper
            call helper
            hult
        ";
    let image = assemble(src).unwrap();
    let text_len = 2 + 7 + 3 + 3 + 5 + 8 + 6 + 2;
    assert_eq!(image.len(), 64 + text_len);
    assert_eq!(&image[4..8], &(text_len as u32).to_le_bytes());
}

#[test]
fn call_target_matches_symbol_address() {
    let src = r#"
    .entry main
    my_add:
        add[u32] %0 %1 %0
        return

    main:
        load[u32] %0 123
        load[u32] %1 321
        call my_add
        hult
    "#;
    let image = assemble(src).unwrap();
    // my_add: add (5 bytes) at 64, return (2) at 69; main at 71.
    assert_eq!(&image[8..12], &71u32.to_le_bytes());
    // call sits after two 7-byte loads: at 71 + 14 = 85.
    assert_eq!(image[85], 15); // call opcode
    assert_eq!(&image[87..91], &64u32.to_le_bytes()); // resolved target
}

#[test]
fn jne_target_matches_symbol_address() {
    let src = "
        .entry main
        main:
            jne %0 %1 main
            hult
        ";
    let image = assemble(src).unwrap();
    // jne = opcode 12, type void, registers 0 and 1, target 64
    assert_eq!(&image[64..72], &[12, 0, 0, 1, 64, 0, 0, 0]);
}

#[test]
fn hex_and_binary_literals_encode_like_decimal() {
    let a = assemble(".entry main\nmain:\n load[u16] %0 0x64\n hult\n").unwrap();
    let b = assemble(".entry main\nmain:\n load[u16] %0 0b110_0100\n hult\n").unwrap();
    let c = assemble(".entry main\nmain:\n load[u16] %0 100\n hult\n").unwrap();
    assert_eq!(a, b);
    assert_eq!(b, c);
}

#[test]
fn wide_immediates_are_little_endian() {
    let image = assemble(".entry main\nmain:\n load[u64] %3 258\n hult\n").unwrap();
    // load = 0, u64 = 64, register 3, then eight little-endian bytes
    assert_eq!(&image[64..74], &[0, 64, 3, 2, 1, 0, 0, 0, 0, 0]);
}

#[test]
fn signed_types_carry_the_sign_bit() {
    let image = assemble(".entry main\nmain:\n load[i8] %0 5\n hult\n").unwrap();
    // i8 encodes as 128 + 8
    assert_eq!(&image[64..68], &[0, 136, 0, 5]);
}

#[test]
fn report_format_for_lex_error() {
    let src = "@";
    let err = assemble(src).unwrap_err();
    let report = err.report("demo.asm", src);
    assert_eq!(report, "0:0:demo.asm\n --> unexpected character\n0  | @\n   | ^\n");
}

#[test]
fn report_builder_with_note() {
    let span = Span {
        row_start: 1,
        row_end: 1,
        col_start: 4,
        col_end: 7,
        byte_start: 10,
        byte_end: 13,
    };
    let report = bitbox::error::ReportBuilder::new("demo.asm", "line0\nabcdefgh", &span)
        .with_message("something odd")
        .with_note("look here")
        .build();
    assert_eq!(
        report,
        "1:4:demo.asm\n --> something odd\n1  | abcdefgh\n   |     ^^^\n   | = note: look here\n"
    );
}

#[test]
fn parse_error_batch_reports_every_error() {
    let src = ".entry main\nmain:\n load[u8] %40 1\n pop[u8] %39\n hult\n";
    let err = assemble(src).unwrap_err();
    // the stray literal after each failed register also reports
    match &err {
        BitBoxError::Parser(errors) => assert_eq!(errors.len(), 3),
        other => panic!("expected a parse error batch, got {:?}", other),
    }
    let report = err.report("demo.asm", src);
    assert_eq!(report.matches("register out of bounds").count(), 2);
}

#[test]
fn comments_and_blank_lines_are_skipped() {
    let with = assemble("; banner\n.entry main\n\n\nmain: ; code\n hult ; stop\n").unwrap();
    let without = assemble(".entry main\nmain:\n hult\n").unwrap();
    assert_eq!(with, without);
}
