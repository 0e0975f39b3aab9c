use cypher::vm::{
    comp_fib, deserialize_instruction, deserialize_u32_array, fib_n, incode_instr,
    word_to_bytes, Instruction, Memory, MemoryController, VmFault, CPU,
};

fn machine_with(program: &Vec<u64>) -> CPU<32> {
    let mut mc = MemoryController::new_from(Memory::<32>::new());
    mc.load_program_external(program, 0);
    CPU::new(mc)
}

#[test]
fn instruction_words_are_little_endian() {
    assert_eq!(incode_instr([1, 0, 0, 0, 0, 0, 0, 0]), 1);
    assert_eq!(incode_instr([1, 1, 0, 0, 0, 1, 0, 0]), 1099511628033);
    assert_eq!(incode_instr([5, 6, 0, 0, 0, 0, 0, 0]), 1541);
    assert_eq!(word_to_bytes(1099511628033), [1, 1, 0, 0, 0, 1, 0, 0]);
    let ray = [9, 0x78, 0x56, 0x34, 0x12, 0, 0, 0];
    assert_eq!(deserialize_u32_array(1, &ray), 0x1234_5678);
    assert_eq!(deserialize_u32_array(4, &ray), 0x12);
}

#[test]
fn opcodes_decode() {
    assert_eq!(deserialize_instruction(0), Ok(Instruction::Exit));
    assert_eq!(deserialize_instruction(3), Ok(Instruction::Add));
    assert_eq!(deserialize_instruction(10), Ok(Instruction::IncrementReg));
    assert_eq!(deserialize_instruction(11), Err(VmFault::UnknownInstruction(11)));
}

#[test]
fn memory_reads_what_was_written() {
    let mut mc = MemoryController::new_from(Memory::<8>::new());
    assert_eq!(mc.read(3), 0);
    mc.write(3, 42);
    assert_eq!(mc.read(3), 42);
    mc.load_program_external(&vec![7, 8, 9], 5);
    assert_eq!(mc.read(5), 7);
    assert_eq!(mc.read(7), 9);
    assert_eq!(mc.read(3), 42);
}

#[test]
fn registers_and_counter() {
    let mut cpu = machine_with(&vec![]);
    cpu.write_to_reg(4, 99);
    assert_eq!(cpu.read_from_reg(4), 99);
    cpu.write_to_program_counter(10);
    cpu.incr();
    cpu.load_instruction();
    assert_eq!(cpu.execute(), Ok(false));
}

#[test]
fn arithmetic_and_jumps() {
    let program = vec![
        incode_instr([1, 20, 0, 0, 0, 0, 0, 0]),
        incode_instr([1, 21, 0, 0, 0, 1, 0, 0]),
        incode_instr([3, 0, 1, 2, 0, 0, 0, 0]),
        incode_instr([2, 2, 12, 0, 0, 0, 0, 0]),
        incode_instr([10, 2, 0, 0, 0, 0, 0, 0]),
        incode_instr([8, 2, 5, 0, 0, 0, 0, 0]),
        incode_instr([9, 0, 0, 9, 0, 0, 0, 0]),
        incode_instr([0, 0, 0, 0, 0, 0, 0, 0]),
        incode_instr([0, 0, 0, 0, 0, 0, 0, 0]),
        incode_instr([7, 1, 0, 0, 0, 0, 0, 0]),
        incode_instr([0, 0, 0, 0, 0, 0, 0, 0]),
    ];
    let mut mc = MemoryController::new_from(Memory::<32>::new());
    mc.load_program_external(&program, 0);
    mc.load_program_external(&vec![30, 12], 20);
    let mut cpu = CPU::new(mc);
    assert_eq!(cpu.run(100), Ok(false));
    assert_eq!(cpu.read_from_reg(0), 30);
    assert_eq!(cpu.read_from_reg(1), 0);
    assert_eq!(cpu.read_from_reg(2), 43);
    assert_eq!(cpu.read_from_reg(5), 43);
}

#[test]
fn faults_are_reported() {
    let mut cpu = machine_with(&vec![incode_instr([12, 0, 0, 0, 0, 0, 0, 0])]);
    assert_eq!(cpu.cycle(), Err(VmFault::UnknownInstruction(12)));
    let mut cpu = machine_with(&vec![incode_instr([7, 9, 0, 0, 0, 0, 0, 0])]);
    assert_eq!(cpu.cycle(), Err(VmFault::BadRegister(9)));
    let mut cpu = machine_with(&vec![incode_instr([1, 40, 0, 0, 0, 0, 0, 0])]);
    assert_eq!(cpu.cycle(), Err(VmFault::BadAddress(40)));
    let mut cpu = machine_with(&vec![incode_instr([5, 40, 0, 0, 0, 0, 0, 0])]);
    assert_eq!(cpu.cycle(), Ok(true));
    assert_eq!(cpu.cycle(), Err(VmFault::BadAddress(40)));
    let mut cpu = machine_with(&vec![incode_instr([10, 0, 0, 0, 0, 0, 0, 0])]);
    cpu.write_to_reg(0, u64::MAX);
    assert_eq!(cpu.cycle(), Err(VmFault::Overflow));
}

#[test]
fn loop_without_exit_uses_up_its_cycles() {
    let mut cpu = machine_with(&vec![
        incode_instr([5, 1, 0, 0, 0, 0, 0, 0]),
        incode_instr([5, 0, 0, 0, 0, 0, 0, 0]),
    ]);
    assert_eq!(cpu.run(50), Ok(true));
}

#[test]
fn fibonacci_by_iteration() {
    assert_eq!(fib_n(0), 1);
    assert_eq!(fib_n(1), 1);
    assert_eq!(fib_n(2), 2);
    assert_eq!(fib_n(10), 89);
    assert_eq!(fib_n(91), 7540113804746346429);
}

#[test]
fn fibonacci_on_the_machine() {
    for n in [0usize, 1, 2, 5, 10, 30, 75] {
        assert_eq!(comp_fib(n), Ok(fib_n(n)));
    }
}
