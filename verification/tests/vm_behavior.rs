//! Behavioral tests: assemble a source program, run it, and check the
//! machine state afterwards.

use bitbox::assembler::assemble;
use bitbox::vm::Vm;
use bitbox::vm::REGESTER_COUNT;

fn run_main(body: &str) -> Vm {
    let src = format!(
        "
        .entry main
        main:
            {}
            hult
        ",
        body
    );
    let program = assemble(&src).expect("assembly failed");
    let mut vm = Vm::new(program).expect("image rejected");
    vm.run().expect("run failed");
    vm
}

fn assert_rest_zero(vm: &Vm, from: usize) {
    for i in from..REGESTER_COUNT {
        assert_eq!(vm.get_regester(i as u8), 0);
    }
}

#[test]
fn load_imm() {
    let vm = run_main(
        "load[u8] %0 100
         load[u32] %1 400",
    );
    assert_eq!(vm.get_regester(0), 100);
    assert_eq!(vm.get_regester(1), 400);
    assert_rest_zero(&vm, 2);
}

#[test]
fn copy_reg() {
    let vm = run_main(
        "load[u8] %0 100
         copy[u8] %1 %0",
    );
    assert_eq!(vm.get_regester(0), 100);
    assert_eq!(vm.get_regester(1), 100);
    assert_rest_zero(&vm, 2);
}

#[test]
fn load_imm_hex() {
    let vm = run_main("load[u8] %0 0x6_4");
    assert_eq!(vm.get_regester(0), 0x64);
    assert_rest_zero(&vm, 1);
}

#[test]
fn load_imm_bin() {
    let vm = run_main("load[u8] %0 0b0000_0010");
    assert_eq!(vm.get_regester(0), 2);
    assert_rest_zero(&vm, 1);
}

#[test]
fn push_pop() {
    let vm = run_main(
        "load[u32] %0 10
         push[u32] %0
         pop[u32] %1",
    );
    assert_eq!(vm.get_regester(0), 10);
    assert_eq!(vm.get_regester(1), 10);
    assert_rest_zero(&vm, 2);
}

#[test]
fn add() {
    let vm = run_main(
        "load[u32] %0 123
         load[u32] %1 321
         add[u32] %2 %0 %1",
    );
    assert_eq!(vm.get_regester(0), 123);
    assert_eq!(vm.get_regester(1), 321);
    assert_eq!(vm.get_regester(2), 444);
    assert_rest_zero(&vm, 3);
}

#[test]
fn sub() {
    let vm = run_main(
        "load[u32] %0 124
         load[u32] %1 123
         sub[u32] %2 %0 %1",
    );
    assert_eq!(vm.get_regester(0), 124);
    assert_eq!(vm.get_regester(1), 123);
    assert_eq!(vm.get_regester(2), 1);
    assert_rest_zero(&vm, 3);
}

#[test]
fn div() {
    let vm = run_main(
        "load[u32] %0 100
         load[u32] %1 5
         div[u32] %2 %0 %1",
    );
    assert_eq!(vm.get_regester(0), 100);
    assert_eq!(vm.get_regester(1), 5);
    assert_eq!(vm.get_regester(2), 20);
    assert_rest_zero(&vm, 3);
}

#[test]
fn mul() {
    let vm = run_main(
        "load[u32] %0 6
         load[u32] %1 7
         mul[u32] %2 %0 %1",
    );
    assert_eq!(vm.get_regester(2), 42);
    assert_rest_zero(&vm, 3);
}

#[test]
fn wide_load_truncates_to_register() {
    let vm = run_main("load[u128] %0 300");
    assert_eq!(vm.get_regester(0), 300);
    assert_rest_zero(&vm, 1);
}

#[test]
fn wide_store_zero_extends() {
    let vm = run_main(
        "load[u8] %0 16
         aloc[u8] %1 %0
         load[u8] %2 0
         load[u16] %3 258
         store[u128] %2 %3",
    );
    assert_eq!(vm.heap.len(), 16);
    assert_eq!(vm.heap[0], 2);
    assert_eq!(vm.heap[1], 1);
    assert!(vm.heap[2..].iter().all(|&b| b == 0));
}

#[test]
fn inc() {
    let vm = run_main(
        "load[u32] %0 0
         inc[u32] %0
         inc[u32] %0
         inc[u32] %0",
    );
    assert_eq!(vm.get_regester(0), 3);
    assert_rest_zero(&vm, 1);
}

#[test]
fn eq() {
    let vm = run_main(
        "load[u32] %0 123
         load[u32] %1 321
         load[u32] %2 1000 ; overwritten when `eq` runs
         eq[u32] %2 %0 %1",
    );
    assert_eq!(vm.get_regester(0), 123);
    assert_eq!(vm.get_regester(1), 321);
    assert_eq!(vm.get_regester(2), 0);
    assert_rest_zero(&vm, 3);
}

#[test]
fn or() {
    let vm = run_main(
        "load[u8] %0 1
         load[u8] %1 2
         or[u8] %0 %0 %1",
    );
    assert_eq!(vm.get_regester(0), 3);
    assert_eq!(vm.get_regester(1), 2);
    assert_rest_zero(&vm, 2);
}

#[test]
fn shift_right() {
    let vm = run_main(
        "load[u8] %0 2
         load[u8] %1 1
         shr[u8] %2 %0 %1",
    );
    assert_eq!(vm.get_regester(0), 2);
    assert_eq!(vm.get_regester(1), 1);
    assert_eq!(vm.get_regester(2), 1);
    assert_rest_zero(&vm, 3);
}

#[test]
fn and() {
    let vm = run_main(
        "load[u8] %0 255
         load[u8] %1 1
         and[u8] %0 %0 %1",
    );
    assert_eq!(vm.get_regester(0), 1);
    assert_eq!(vm.get_regester(1), 1);
    assert_rest_zero(&vm, 2);
}

#[test]
fn call() {
    let src = r#"
    .entry main
    my_add:
        add[u32] %0 %1 %0
        return

    main:
        load[u32] %0 123
        load[u32] %1 321
        call my_add
        hult
    "#;
    let program = assemble(&src).expect("assembly failed");
    let mut vm = Vm::new(program).expect("image rejected");
    vm.run().expect("run failed");
    assert_eq!(vm.get_regester(0), 444);
    assert_eq!(vm.get_regester(1), 321);
    for i in 3..REGESTER_COUNT {
        assert_eq!(vm.get_regester(i as u8), 0);
    }
}

#[test]
fn store() {
    let src = r#"
        .entry main
        main:
            load[u8] %0 1   ; One Byte
            aloc[u8] %2 %0     ; Allocate 1 Byte
            load[u8] %1 100 ; Value
            store[u8] %2 %1 ; Store Pointer/Index Value
            hult
        "#;
    let program = assemble(&src).expect("assembly failed");
    let mut vm = Vm::new(program).expect("image rejected");
    vm.run().expect("run failed");
    assert_eq!(vm.get_regester(0), 1);
    assert_eq!(vm.get_regester(1), 100);
    assert_eq!(vm.get_regester(2), 0);
    for i in 3..REGESTER_COUNT {
        assert_eq!(vm.get_regester(i as u8), 0);
    }
    assert_eq!(vm.heap.len(), 1);
    assert_eq!(vm.heap[0], 100);
}

#[test]
fn aloc() {
    let src = r#"
        .entry main
        main:
            load[u8] %0 1
            aloc[u8] %1 %0
            hult
        "#;
    let program = assemble(&src).expect("assembly failed");
    let mut vm = Vm::new(program).expect("image rejected");
    vm.run().expect("run failed");
    assert_eq!(vm.get_regester(0), 1);
    assert_eq!(vm.get_regester(1), 0);
    for i in 2..REGESTER_COUNT {
        assert_eq!(vm.get_regester(i as u8), 0);
    }
    assert_eq!(vm.heap.len(), 1);
}

#[test]
fn fibonacci_loop() {
    let src = r#"
        .entry main
        main:
            load[u64] %0 1
            load[u64] %1 1
            load[u64] %2 93
            load[u64] %3 2
        loop:
            push[u64] %1
            add[u64] %1 %0 %1
            pop[u64] %0
            inc[u64] %3
            jne %3 %2 loop
            printreg[u64] %1
            hult
        "#;
    let program = assemble(&src).expect("assembly failed");
    let mut vm = Vm::new(program).expect("image rejected");
    vm.run().expect("run failed");
    assert_eq!(vm.output, b"12200160415121876738\n".to_vec());
    assert_eq!(vm.get_regester(1), 12200160415121876738);
}

#[test]
fn heap_write_syscall() {
    let src = r#"
        .entry main
        main:
            load[u8] %1 6
            aloc[u8] %0 %1
            load[u8] %4 72
            store[u8] %5 %4
            inc[u8] %5
            load[u8] %4 101
            store[u8] %5 %4
            inc[u8] %5
            load[u8] %4 108
            store[u8] %5 %4
            inc[u8] %5
            load[u8] %4 108
            store[u8] %5 %4
            inc[u8] %5
            load[u8] %4 111
            store[u8] %5 %4
            inc[u8] %5
            load[u8] %4 10
            store[u8] %5 %4
            load[u8] %0 0
            load[u8] %1 0
            load[u8] %2 6
            syscall
            hult
        "#;
    let program = assemble(&src).expect("assembly failed");
    let mut vm = Vm::new(program).expect("image rejected");
    vm.run().expect("run failed");
    assert_eq!(vm.output, b"Hello\n".to_vec());
    assert_eq!(vm.heap, b"Hello\n".to_vec());
}

#[test]
fn printreg_zero() {
    let vm = run_main("printreg[u64] %7");
    assert_eq!(vm.output, b"0\n".to_vec());
}

#[test]
fn with_args_seeds_machine() {
    let src = "
        .entry main
        main:
            hult
        ";
    let program = assemble(src).expect("assembly failed");
    let vm = Vm::new(program)
        .expect("image rejected")
        .with_args(vec!["ab".to_string(), "c".to_string()]);
    assert_eq!(vm.get_regester(0), 2);
    assert_eq!(vm.heap, b"abc".to_vec());
    // first argument on top of the stack (the end of the vector)
    assert_eq!(vm.stack, vec![(1u64 << 32) | 2, (2u64 << 32) | 0]);
}
