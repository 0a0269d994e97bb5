use iridescent::assembler::program_parsers::assemble;
use iridescent::repl::{ParseHexError, REPL};
use iridescent::vm::{FaultKind, StepOutcome, VM};

#[test]
fn test_create_vm() {
    let test_vm = VM::new();
    assert_eq!(test_vm.registers[0], 0);
}

#[test]
fn test_opcode_hlt() {
    let mut test_vm = VM::new();
    let test_bytes = vec![5, 0, 0, 0, 1];
    test_vm.program = test_bytes;
    test_vm.run();
    assert_eq!(test_vm.pc, 1);
}

#[test]
fn test_load_opcode() {
    let mut test_vm = VM::new();
    test_vm.program = vec![0, 0, 1, 244];
    test_vm.run();
    assert_eq!(test_vm.registers[0], 500);
}

#[test]
fn test_add_opcode() {
    let mut test_vm = VM::new();
    test_vm.registers[0] = 5;
    test_vm.registers[1] = 4;
    test_vm.program = vec![1, 0, 1, 2];
    test_vm.run();
    assert_eq!(test_vm.registers[2], 9);
}

#[test]
fn test_sub_opcode() {
    let mut test_vm = VM::new();
    test_vm.registers[0] = 5;
    test_vm.registers[1] = 4;
    test_vm.program = vec![2, 0, 1, 2];
    test_vm.run();
    assert_eq!(test_vm.registers[2], 1);
}

#[test]
fn test_mul_opcode() {
    let mut test_vm = VM::new();
    test_vm.registers[0] = 5;
    test_vm.registers[1] = 4;
    test_vm.program = vec![3, 0, 1, 2];
    test_vm.run();
    assert_eq!(test_vm.registers[2], 20);
}

#[test]
fn test_div_opcode() {
    let mut test_vm = VM::new();
    test_vm.registers[0] = 5;
    test_vm.registers[1] = 4;
    test_vm.program = vec![4, 0, 1, 2];
    test_vm.run();
    assert_eq!(test_vm.registers[2], 1);
    assert_eq!(test_vm.remainder, 1);
}

#[test]
fn test_opcode_igl() {
    let mut test_vm = VM::new();
    let test_bytes = vec![200, 0, 0, 0];
    test_vm.program = test_bytes;
    test_vm.run();
    assert_eq!(test_vm.pc, 1);
}

#[test]
fn test_jmp_opcode() {
    let mut test_vm = VM::new();
    test_vm.registers[0] = 1;
    test_vm.program = vec![6, 0, 0, 0];
    test_vm.run_once();
    assert_eq!(test_vm.pc, 1);
}

#[test]
fn test_jmpf_opcode() {
    let mut test_vm = VM::new();
    test_vm.registers[0] = 2;
    test_vm.program = vec![7, 0, 0, 0, 6, 0, 0, 0];
    test_vm.run_once();
    assert_eq!(test_vm.pc, 4);
}

fn vm_with(program: Vec<u8>, r0: i32, r1: i32) -> VM {
    let mut vm = VM::new();
    vm.registers[0] = r0;
    vm.registers[1] = r1;
    vm.program = program;
    vm
}

#[test]
fn arithmetic_from_assembled_source() {
    for (src, expected) in [
        ("add $0 $1 $2", 9),
        ("sub $0 $1 $2", 1),
        ("mul $0 $1 $2", 20),
        ("div $0 $1 $2", 1),
    ] {
        let mut vm = vm_with(assemble(src).unwrap().bytes, 5, 4);
        assert_eq!(vm.run_once(), StepOutcome::Continue);
        assert_eq!(vm.registers[2], expected);
        assert_eq!(vm.pc, 4);
    }
    let mut vm = vm_with(assemble("div $0 $1 $2").unwrap().bytes, 5, 4);
    vm.run_once();
    assert_eq!(vm.remainder, 1);
}

#[test]
fn arithmetic_wraps_and_division_truncates() {
    let mut vm = vm_with(vec![1, 0, 1, 2], i32::MAX, 1);
    vm.run_once();
    assert_eq!(vm.registers[2], i32::MIN);
    let mut vm = vm_with(vec![4, 0, 1, 2], -7, 2);
    vm.run_once();
    assert_eq!(vm.registers[2], -3);
    assert_eq!(vm.remainder, -1);
    let mut vm = vm_with(vec![4, 0, 1, 2], i32::MIN, -1);
    vm.run_once();
    assert_eq!(vm.registers[2], i32::MIN);
    assert_eq!(vm.remainder, 0);
}

#[test]
fn division_by_zero_faults_without_writing() {
    let mut vm = vm_with(vec![4, 0, 1, 2], 5, 0);
    vm.registers[2] = 77;
    assert_eq!(vm.run(), StepOutcome::Faulted(FaultKind::DivisionByZero));
    assert_eq!(vm.registers[2], 77);
    assert_eq!(vm.remainder, 0);
}

#[test]
fn truncated_load_faults() {
    let mut vm = vm_with(vec![0], 0, 0);
    assert_eq!(vm.run_once(), StepOutcome::Faulted(FaultKind::MissingOperand));
    let mut vm = vm_with(vec![0, 1, 2], 0, 0);
    assert_eq!(vm.run(), StepOutcome::Faulted(FaultKind::MissingOperand));
    assert_eq!(vm.registers[1], 0);
}

#[test]
fn jmp_sets_counter_exactly() {
    let mut vm = vm_with(vec![5, 5, 6, 0, 5], 3, 0);
    vm.pc = 2;
    assert_eq!(vm.run_once(), StepOutcome::Continue);
    assert_eq!(vm.pc, 3);
    let mut vm = vm_with(vec![6, 0], 3, 0);
    vm.run_once();
    assert_eq!(vm.pc, 3);
}

#[test]
fn conditional_jumps_follow_the_flag() {
    // eq $0 $1 $2 ; jeq $3
    let prog = vec![9, 0, 1, 2, 15, 3];
    let mut vm = vm_with(prog.clone(), 4, 4);
    vm.registers[3] = 0;
    vm.run_once();
    assert!(vm.equal_flag);
    vm.run_once();
    assert_eq!(vm.pc, 0);
    let mut vm = vm_with(prog, 4, 5);
    vm.run_once();
    assert!(!vm.equal_flag);
    vm.run_once();
    assert_eq!(vm.pc, 6);
    // gt $0 $1 $2 ; jneq $3
    let prog = vec![11, 0, 1, 2, 16, 3];
    let mut vm = vm_with(prog.clone(), 4, 5);
    vm.run_once();
    assert!(!vm.equal_flag);
    vm.run_once();
    assert_eq!(vm.pc, 0);
    let mut vm = vm_with(prog, 6, 5);
    vm.run_once();
    vm.run_once();
    assert_eq!(vm.pc, 6);
}

#[test]
fn comparisons_set_the_flag() {
    for (op, a, b, expected) in [
        (9u8, 1, 1, true),
        (10, 1, 1, false),
        (11, 2, 1, true),
        (12, 2, 1, false),
        (13, 1, 1, true),
        (14, 2, 1, false),
    ] {
        let mut vm = vm_with(vec![op, 0, 1, 0], a, b);
        assert_eq!(vm.run_once(), StepOutcome::Continue);
        assert_eq!(vm.equal_flag, expected);
        assert_eq!(vm.pc, 4);
    }
}

#[test]
fn lone_halt_runs_one_step() {
    let mut vm = VM::new();
    vm.load_program(assemble("hlt").unwrap());
    assert_eq!(vm.run(), StepOutcome::Halted);
    assert_eq!(vm.pc, 1);
}

#[test]
fn running_off_the_end_is_exhausted() {
    let mut vm = VM::new();
    vm.load_program(assemble("load $4 #9").unwrap());
    assert_eq!(vm.run(), StepOutcome::Exhausted);
    assert_eq!(vm.registers[4], 9);
    assert_eq!(vm.run_once(), StepOutcome::Exhausted);
}

#[test]
fn faults_for_registers_illegal_bytes_and_underflow() {
    let mut vm = vm_with(vec![1, 0, 40, 2], 0, 0);
    assert_eq!(vm.run_once(), StepOutcome::Faulted(FaultKind::RegisterOutOfRange));
    assert_eq!(vm.pc, 1);
    let mut vm = vm_with(vec![17], 0, 0);
    assert_eq!(vm.run_once(), StepOutcome::Faulted(FaultKind::IllegalOpcode));
    let mut vm = vm_with(vec![8, 0], 5, 0);
    assert_eq!(vm.run_once(), StepOutcome::Faulted(FaultKind::ProgramCounterUnderflow));
    let mut vm = vm_with(vec![6, 0], -1, 0);
    assert_eq!(vm.run_once(), StepOutcome::Faulted(FaultKind::ProgramCounterUnderflow));
    let mut vm = vm_with(vec![5, 8, 0], 2, 0);
    vm.pc = 1;
    assert_eq!(vm.run_once(), StepOutcome::Continue);
    assert_eq!(vm.pc, 1);
}

#[test]
fn load_then_step_sets_each_register() {
    for r in [0u32, 7, 31] {
        for u in [0u32, 1, 255, 256, 65535] {
            let src = format!("load ${} #{}", r, u);
            let mut vm = VM::new();
            vm.load_program(assemble(&src).unwrap());
            assert_eq!(vm.run_once(), StepOutcome::Continue);
            assert_eq!(vm.registers[r as usize], u as i32);
        }
    }
}

#[test]
fn repl_parses_hex_and_lists_program() {
    let mut repl = REPL::new();
    assert_eq!(repl.parse_hex("00 01 03 E8"), Ok(vec![0, 1, 3, 232]));
    assert_eq!(repl.parse_hex("ff 0a"), Ok(vec![255, 10]));
    assert_eq!(repl.parse_hex("00 1G"), Err(ParseHexError { offset: 3 }));
    assert_eq!(repl.parse_hex("100"), Err(ParseHexError { offset: 0 }));
    assert_eq!(repl.parse_hex("00  01"), Err(ParseHexError { offset: 3 }));
    assert_eq!(repl.parse_hex(""), Err(ParseHexError { offset: 0 }));
    repl.vm.program = vec![5, 6, 7];
    assert_eq!(repl.program(), vec![5, 6, 7]);
    assert!(repl.command_buffer.is_empty());
}

#[test]
fn a_faulted_machine_is_not_advanced() {
    let mut vm = vm_with(vec![4, 0, 1, 2, 5], 5, 0);
    assert_eq!(vm.run_once(), StepOutcome::Faulted(FaultKind::DivisionByZero));
    assert_eq!(vm.fault, Some(FaultKind::DivisionByZero));
    assert_eq!(vm.pc, 1);
    vm.pc = 4;
    assert_eq!(vm.run_once(), StepOutcome::Faulted(FaultKind::DivisionByZero));
    assert_eq!(vm.run(), StepOutcome::Faulted(FaultKind::DivisionByZero));
    assert_eq!(vm.pc, 4);
    vm.load_program(assemble("hlt").unwrap());
    assert_eq!(vm.fault, None);
    assert_eq!(vm.run(), StepOutcome::Halted);
}

#[test]
fn hex_groups_may_start_with_a_plus() {
    let mut repl = REPL::new();
    assert_eq!(repl.parse_hex("+a"), Ok(vec![10]));
    assert_eq!(repl.parse_hex("01 +FF"), Ok(vec![1, 255]));
    assert_eq!(repl.parse_hex("+"), Err(ParseHexError { offset: 0 }));
    assert_eq!(repl.parse_hex("00 ++1"), Err(ParseHexError { offset: 3 }));
    assert_eq!(repl.parse_hex("+100"), Err(ParseHexError { offset: 0 }));
}
