//! A toy register machine: eight 64-bit registers, a word-addressed memory of
//! `N` words, and eight-byte instructions read little-endian from memory.
use vstd::prelude::*;
use crate::util::le_u64;

verus! {

/// The operations of the machine, by opcode `0..=10`.
#[derive(Clone, Copy, Debug, PartialEq, Eq)]
pub enum Instruction {
    /// `ext`: stop.
    Exit,
    /// `lod <mem_address: u32> <register>`
    LoadFromMem,
    /// `wrt <register> <mem_address: u32>`
    WriteToMem,
    /// `add <reg1> <reg2> <reg3>`: `reg3 = reg1 + reg2`
    Add,
    /// `sub <reg1> <reg2> <reg3>`: also writes `reg1 + reg2` to `reg3`
    Sub,
    /// `spc <u32_value>`: jump
    SetProgramCounter,
    /// `clra`: zero every register
    ClearAllRegisters,
    /// `clr <reg>`: zero one register
    ClearRegister,
    /// `rw <reg1> <reg2>`: copy `reg1` into `reg2`
    RegisterWrite,
    /// `ieqe <reg1> <reg2> <u32_program_counter>`: jump when equal
    IfEqSPCElsePass,
    /// `icrr <reg>`: add one
    IncrementReg,
}

/// Why the machine could not carry out a step.
#[derive(Clone, Copy, Debug, PartialEq, Eq)]
pub enum VmFault {
    /// The opcode byte names no instruction.
    UnknownInstruction(u8),
    /// A register index is not below 8.
    BadRegister(u8),
    /// A memory address is outside memory.
    BadAddress(u32),
    /// A register or the program counter would pass its maximum.
    Overflow,
}

/// The instruction an opcode byte names.
pub open spec fn opcode(b: u8) -> Option<Instruction> {
    if b == 0 {
        Some(Instruction::Exit)
    } else if b == 1 {
        Some(Instruction::LoadFromMem)
    } else if b == 2 {
        Some(Instruction::WriteToMem)
    } else if b == 3 {
        Some(Instruction::Add)
    } else if b == 4 {
        Some(Instruction::Sub)
    } else if b == 5 {
        Some(Instruction::SetProgramCounter)
    } else if b == 6 {
        Some(Instruction::ClearAllRegisters)
    } else if b == 7 {
        Some(Instruction::ClearRegister)
    } else if b == 8 {
        Some(Instruction::RegisterWrite)
    } else if b == 9 {
        Some(Instruction::IfEqSPCElsePass)
    } else if b == 10 {
        Some(Instruction::IncrementReg)
    } else {
        None
    }
}

/// The 32-bit operand at byte `i` of an instruction, little-endian.
pub open spec fn operand32(ins: Seq<u8>, i: int) -> u32 {
    (ins[i] + ins[i + 1] * 0x100 + ins[i + 2] * 0x1_0000 + ins[i + 3] * 0x100_0000) as u32
}

/// Byte `i` of `v`, least significant first.
pub open spec fn byte_of(v: u64, i: nat) -> u8 {
    ((v as nat / pow256(i)) % 256) as u8
}

/// `256^i`
pub open spec fn pow256(i: nat) -> nat
    decreases i,
{
    if i == 0 {
        1
    } else {
        256 * pow256((i - 1) as nat)
    }
}

/// The eight bytes of `v`, least significant first.
pub open spec fn word_bytes(v: u64) -> Seq<u8> {
    Seq::new(8, |i: int| byte_of(v, i as nat))
}

/// The state of a machine: registers, memory, program counter and the
/// instruction last loaded.
pub type MachineState = (Seq<u64>, Seq<u64>, u32, Seq<u8>);

/// What executing the loaded instruction does: the outcome (`Ok(false)` to
/// stop, `Ok(true)` to go on) and the state after. A fault leaves the state as
/// it was.
pub open spec fn execute_spec(s: MachineState) -> (Result<bool, VmFault>, MachineState) {
    let (regs, mem, pc, ins) = s;
    match opcode(ins[0]) {
        None => (Err(VmFault::UnknownInstruction(ins[0])), s),
        Some(Instruction::Exit) => (Ok(false), s),
        Some(Instruction::LoadFromMem) => {
            let a = operand32(ins, 1);
            let r = ins[5];
            if a >= mem.len() {
                (Err(VmFault::BadAddress(a)), s)
            } else if r >= 8 {
                (Err(VmFault::BadRegister(r)), s)
            } else {
                (Ok(true), (regs.update(r as int, mem[a as int]), mem, pc, ins))
            }
        },
        Some(Instruction::WriteToMem) => {
            let r = ins[1];
            let a = operand32(ins, 2);
            if r >= 8 {
                (Err(VmFault::BadRegister(r)), s)
            } else if a >= mem.len() {
                (Err(VmFault::BadAddress(a)), s)
            } else {
                (Ok(true), (regs, mem.update(a as int, regs[r as int]), pc, ins))
            }
        },
        Some(Instruction::Add) | Some(Instruction::Sub) => {
            let (r1, r2, w) = (ins[1], ins[2], ins[3]);
            if r1 >= 8 {
                (Err(VmFault::BadRegister(r1)), s)
            } else if r2 >= 8 {
                (Err(VmFault::BadRegister(r2)), s)
            } else if regs[r1 as int] + regs[r2 as int] > u64::MAX {
                (Err(VmFault::Overflow), s)
            } else if w >= 8 {
                (Err(VmFault::BadRegister(w)), s)
            } else {
                (
                    Ok(true),
                    (regs.update(w as int, (regs[r1 as int] + regs[r2 as int]) as u64), mem, pc, ins),
                )
            }
        },
        Some(Instruction::SetProgramCounter) => (Ok(true), (regs, mem, operand32(ins, 1), ins)),
        Some(Instruction::ClearAllRegisters) => (
            Ok(true),
            (Seq::new(8, |i: int| 0u64), mem, pc, ins),
        ),
        Some(Instruction::ClearRegister) => {
            let r = ins[1];
            if r >= 8 {
                (Err(VmFault::BadRegister(r)), s)
            } else {
                (Ok(true), (regs.update(r as int, 0), mem, pc, ins))
            }
        },
        Some(Instruction::RegisterWrite) => {
            let (l, r) = (ins[1], ins[2]);
            if l >= 8 {
                (Err(VmFault::BadRegister(l)), s)
            } else if r >= 8 {
                (Err(VmFault::BadRegister(r)), s)
            } else {
                (Ok(true), (regs.update(r as int, regs[l as int]), mem, pc, ins))
            }
        },
        Some(Instruction::IfEqSPCElsePass) => {
            let (r1, r2) = (ins[1], ins[2]);
            if r1 >= 8 {
                (Err(VmFault::BadRegister(r1)), s)
            } else if r2 >= 8 {
                (Err(VmFault::BadRegister(r2)), s)
            } else if regs[r1 as int] == regs[r2 as int] {
                (Ok(true), (regs, mem, operand32(ins, 3), ins))
            } else {
                (Ok(true), s)
            }
        },
        Some(Instruction::IncrementReg) => {
            let r = ins[1];
            if r >= 8 {
                (Err(VmFault::BadRegister(r)), s)
            } else if regs[r as int] == u64::MAX {
                (Err(VmFault::Overflow), s)
            } else {
                (Ok(true), (regs.update(r as int, (regs[r as int] + 1) as u64), mem, pc, ins))
            }
        },
    }
}

/// One cycle: load the word at the program counter, execute it, and step the
/// program counter on unless the instruction moved it.
pub open spec fn cycle_spec(s: MachineState) -> (Result<bool, VmFault>, MachineState) {
    let (regs, mem, pc, ins) = s;
    if pc >= mem.len() {
        (Err(VmFault::BadAddress(pc)), s)
    } else {
        let loaded = (regs, mem, pc, word_bytes(mem[pc as int]));
        let (res, t) = execute_spec(loaded);
        if res is Err {
            (res, loaded)
        } else if t.2 != pc {
            (res, t)
        } else if pc == u32::MAX {
            (Err(VmFault::Overflow), t)
        } else {
            (res, (t.0, t.1, (pc + 1) as u32, t.3))
        }
    }
}

/// Up to `fuel` cycles, stopping at an exit or a fault; `Ok(true)` when the
/// fuel ran out first.
pub open spec fn run_spec(s: MachineState, fuel: nat) -> (Result<bool, VmFault>, MachineState)
    decreases fuel,
{
    if fuel == 0 {
        (Ok(true), s)
    } else {
        let (res, t) = cycle_spec(s);
        match res {
            Ok(true) => run_spec(t, (fuel - 1) as nat),
            _ => (res, t),
        }
    }
}

/// Packs eight bytes into an instruction word, least significant first.
pub fn incode_instr(input: [u8; 8]) -> (r: u64)
    ensures
        r == le_u64(input@),
{
    (input[0] as u64) + (input[1] as u64) * 0x100 + (input[2] as u64) * 0x1_0000 + (input[3] as u64)
        * 0x100_0000 + (input[4] as u64) * 0x1_0000_0000 + (input[5] as u64) * 0x100_0000_0000
        + (input[6] as u64) * 0x1_0000_0000_0000 + (input[7] as u64) * 0x100_0000_0000_0000
}

/// The eight bytes of an instruction word, least significant first.
pub fn word_to_bytes(v: u64) -> (r: [u8; 8])
    ensures
        r@ == word_bytes(v),
{
    proof {
        assert(pow256(0) == 1);
        assert(pow256(1) == 0x100);
        assert(pow256(2) == 0x1_0000);
        assert(pow256(3) == 0x100_0000);
        assert(pow256(4) == 0x1_0000_0000);
        assert(pow256(5) == 0x100_0000_0000);
        assert(pow256(6) == 0x1_0000_0000_0000);
        assert(pow256(7) == 0x100_0000_0000_0000);
    }
    let out: [u8; 8] = [
        (v % 0x100) as u8,
        ((v / 0x100) % 0x100) as u8,
        ((v / 0x1_0000) % 0x100) as u8,
        ((v / 0x100_0000) % 0x100) as u8,
        ((v / 0x1_0000_0000) % 0x100) as u8,
        ((v / 0x100_0000_0000) % 0x100) as u8,
        ((v / 0x1_0000_0000_0000) % 0x100) as u8,
        ((v / 0x100_0000_0000_0000) % 0x100) as u8,
    ];
    assert(out[0] == byte_of(v, 0));
    assert(out[1] == byte_of(v, 1));
    assert(out[2] == byte_of(v, 2));
    assert(out[3] == byte_of(v, 3));
    assert(out[4] == byte_of(v, 4));
    assert(out[5] == byte_of(v, 5));
    assert(out[6] == byte_of(v, 6));
    assert(out[7] == byte_of(v, 7));
    assert(out@ =~= word_bytes(v));
    out
}

/// The instruction that an opcode byte names, or `UnknownInstruction`.
pub fn deserialize_instruction(val: u8) -> (r: Result<Instruction, VmFault>)
    ensures
        r == match opcode(val) {
            Some(i) => Ok(i),
            None => Err(VmFault::UnknownInstruction(val)),
        },
{
    match val {
        0 => Ok(Instruction::Exit),
        1 => Ok(Instruction::LoadFromMem),
        2 => Ok(Instruction::WriteToMem),
        3 => Ok(Instruction::Add),
        4 => Ok(Instruction::Sub),
        5 => Ok(Instruction::SetProgramCounter),
        6 => Ok(Instruction::ClearAllRegisters),
        7 => Ok(Instruction::ClearRegister),
        8 => Ok(Instruction::RegisterWrite),
        9 => Ok(Instruction::IfEqSPCElsePass),
        10 => Ok(Instruction::IncrementReg),
        _ => Err(VmFault::UnknownInstruction(val)),
    }
}

/// The 32-bit operand at byte `idx` of an instruction, little-endian.
pub fn deserialize_u32_array(idx: usize, ray: &[u8; 8]) -> (r: u32)
    requires
        idx + 4 <= 8,
    ensures
        r == operand32(ray@, idx as int),
{
    (ray[idx] as u32) + (ray[idx + 1] as u32) * 0x100 + (ray[idx + 2] as u32) * 0x1_0000 + (ray[idx
        + 3] as u32) * 0x100_0000
}

/// `N` words of memory.
pub struct Memory<const N: usize> {
    data: [u64; N],
}

impl<const N: usize> Memory<N> {
    /// The words of memory.
    pub closed spec fn words(&self) -> Seq<u64> {
        self.data@
    }

    /// Memory with every word zero.
    pub fn new() -> (r: Self)
        ensures
            r.words() == Seq::new(N as nat, |i: int| 0u64),
    {
        let r = Memory { data: [0u64; N] };
        assert(r.data@ =~= Seq::new(N as nat, |i: int| 0u64));
        r
    }
}

/// Reads and writes words of a memory.
pub struct MemoryController<const N: usize> {
    memory: Memory<N>,
}

impl<const N: usize> MemoryController<N> {
    /// The words of the memory it controls.
    pub closed spec fn words(&self) -> Seq<u64> {
        self.memory.data@
    }

    /// Takes control of `input`.
    pub fn new_from(input: Memory<N>) -> (r: Self)
        ensures
            r.words() == input.words(),
    {
        MemoryController { memory: input }
    }

    /// Copies `ext_prg` into memory from address `idx` on.
    pub fn load_program_external(&mut self, ext_prg: &Vec<u64>, idx: usize)
        requires
            idx + ext_prg.len() <= N,
            idx + ext_prg.len() <= u32::MAX,
        ensures
            final(self).words().len() == N,
            forall|j: int|
                0 <= j < N ==> #[trigger] final(self).words()[j] == if idx <= j < idx
                    + ext_prg.len() {
                    ext_prg[j - idx]
                } else {
                    old(self).words()[j]
                },
    {
        let mut i: usize = 0;
        while i < ext_prg.len()
            invariant
                i <= ext_prg.len(),
                idx + ext_prg.len() <= N,
                idx + ext_prg.len() <= u32::MAX,
                self.words().len() == N,
                forall|j: int|
                    0 <= j < N ==> #[trigger] self.words()[j] == if idx <= j < idx + i {
                        ext_prg[j - idx]
                    } else {
                        old(self).words()[j]
                    },
            decreases ext_prg.len() - i,
        {
            self.write((i + idx) as u32, ext_prg[i]);
            i = i + 1;
        }
    }

    /// The word at `idx`.
    pub fn read(&self, idx: u32) -> (r: u64)
        requires
            idx < N,
        ensures
            r == self.words()[idx as int],
    {
        self.memory.data[idx as usize]
    }

    /// Sets the word at `idx` to `val`.
    pub fn write(&mut self, idx: u32, val: u64)
        requires
            idx < N,
        ensures
            final(self).words() == old(self).words().update(idx as int, val),
    {
        self.memory.data[idx as usize] = val;
    }
}

/// A machine: registers, the loaded instruction, a program counter and the
/// memory it runs from.
pub struct CPU<const N: usize> {
    memory_controller: MemoryController<N>,
    reg_array: [u64; 8],
    current_instruction: [u8; 8],
    program_counter: u32,
}

impl<const N: usize> CPU<N> {
    /// Registers, memory, program counter and loaded instruction.
    pub closed spec fn state(&self) -> MachineState {
        (
            self.reg_array@,
            self.memory_controller.words(),
            self.program_counter,
            self.current_instruction@,
        )
    }

    /// The words of memory.
    pub closed spec fn memory_words(&self) -> Seq<u64> {
        self.memory_controller.words()
    }

    /// A machine with zeroed registers and instruction, at address 0, running
    /// from `mc`.
    pub fn new(mc: MemoryController<N>) -> (r: Self)
        ensures
            r.state() == (
                Seq::new(8, |i: int| 0u64),
                mc.words(),
                0u32,
                Seq::new(8, |i: int| 0u8),
            ),
    {
        let r = CPU {
            memory_controller: mc,
            reg_array: [0u64; 8],
            current_instruction: [0u8; 8],
            program_counter: 0u32,
        };
        assert(r.reg_array@ =~= Seq::new(8, |i: int| 0u64));
        assert(r.current_instruction@ =~= Seq::new(8, |i: int| 0u8));
        r
    }

    /// Runs at most `max_cycles` cycles, stopping at an exit instruction or a
    /// fault. `Ok(false)`: the program exited; `Ok(true)`: it was still running.
    pub fn run(&mut self, max_cycles: u64) -> (r: Result<bool, VmFault>)
        ensures
            (r, final(self).state()) == run_spec(old(self).state(), max_cycles as nat),
    {
        let mut left: u64 = max_cycles;
        while left > 0
            invariant
                run_spec(self.state(), left as nat) == run_spec(old(self).state(), max_cycles as nat),
            decreases left,
        {
            let res = self.cycle();
            match res {
                Ok(true) => {},
                _ => {
                    return res;
                },
            }
            left = left - 1;
        }
        Ok(true)
    }

    /// One cycle: loads the word at the program counter, executes it, and steps
    /// the program counter on unless the instruction moved it.
    pub fn cycle(&mut self) -> (r: Result<bool, VmFault>)
        ensures
            (r, final(self).state()) == cycle_spec(old(self).state()),
    {
        if self.program_counter as usize >= N {
            return Err(VmFault::BadAddress(self.program_counter));
        }
        self.load_instruction();
        let tmp_pc = self.program_counter;
        let out = self.execute();
        match out {
            Err(e) => {
                return Err(e);
            },
            Ok(_) => {},
        }
        if tmp_pc == self.program_counter {
            if self.program_counter == u32::MAX {
                return Err(VmFault::Overflow);
            }
            self.incr();
        }
        out
    }

    /// Loads the word at the program counter as the current instruction.
    pub fn load_instruction(&mut self)
        requires
            old(self).state().2 < N,
        ensures
            final(self).state() == (
                old(self).state().0,
                old(self).state().1,
                old(self).state().2,
                word_bytes(old(self).state().1[old(self).state().2 as int]),
            ),
    {
        let word = self.memory_controller.read(self.program_counter);
        self.current_instruction = word_to_bytes(word);
    }

    /// All eight registers.
    pub fn registers(&self) -> (r: [u64; 8])
        ensures
            r@ == self.state().0,
    {
        self.reg_array
    }

    /// The address of the next instruction.
    pub fn program_counter(&self) -> (r: u32)
        ensures
            r == self.state().2,
    {
        self.program_counter
    }

    /// The instruction last loaded.
    pub fn current_instruction(&self) -> (r: [u8; 8])
        ensures
            r@ == self.state().3,
    {
        self.current_instruction
    }

    /// The word of memory at `idx`.
    pub fn read_memory(&self, idx: u32) -> (r: u64)
        requires
            idx < N,
        ensures
            r == self.state().1[idx as int],
    {
        self.memory_controller.read(idx)
    }

    /// The value of register `idx`.
    pub fn read_from_reg(&self, idx: u8) -> (r: u64)
        requires
            idx < 8,
        ensures
            r == self.state().0[idx as int],
    {
        self.reg_array[idx as usize]
    }

    /// Sets register `idx` to `val`.
    pub fn write_to_reg(&mut self, idx: u8, val: u64)
        requires
            idx < 8,
        ensures
            final(self).state() == (
                old(self).state().0.update(idx as int, val),
                old(self).state().1,
                old(self).state().2,
                old(self).state().3,
            ),
    {
        self.reg_array[idx as usize] = val;
    }

    /// Sets the program counter to `val`.
    pub fn write_to_program_counter(&mut self, val: u32)
        ensures
            final(self).state() == (
                old(self).state().0,
                old(self).state().1,
                val,
                old(self).state().3,
            ),
    {
        self.program_counter = val;
    }

    /// Steps the program counter on by one.
    pub fn incr(&mut self)
        requires
            old(self).state().2 < u32::MAX,
        ensures
            final(self).state() == (
                old(self).state().0,
                old(self).state().1,
                (old(self).state().2 + 1) as u32,
                old(self).state().3,
            ),
    {
        self.program_counter = self.program_counter + 1;
    }

    /// Executes the loaded instruction. `Ok(false)`: the machine stops;
    /// `Ok(true)`: it goes on.
    pub fn execute(&mut self) -> (r: Result<bool, VmFault>)
        ensures
            (r, final(self).state()) == execute_spec(old(self).state()),
    {
        let ins = self.current_instruction;
        match deserialize_instruction(ins[0]) {
            Err(e) => Err(e),
            Ok(Instruction::Exit) => Ok(false),
            Ok(Instruction::LoadFromMem) => {
                let mem_addr = deserialize_u32_array(1, &ins);
                let reg_addr = ins[5];
                if mem_addr as usize >= N {
                    return Err(VmFault::BadAddress(mem_addr));
                }
                if reg_addr >= 8 {
                    return Err(VmFault::BadRegister(reg_addr));
                }
                let val = self.memory_controller.read(mem_addr);
                self.write_to_reg(reg_addr, val);
                Ok(true)
            },
            Ok(Instruction::WriteToMem) => {
                let reg_addr = ins[1];
                let mem_addr = deserialize_u32_array(2, &ins);
                if reg_addr >= 8 {
                    return Err(VmFault::BadRegister(reg_addr));
                }
                if mem_addr as usize >= N {
                    return Err(VmFault::BadAddress(mem_addr));
                }
                let out = self.read_from_reg(reg_addr);
                self.memory_controller.write(mem_addr, out);
                Ok(true)
            },
            Ok(Instruction::Add) | Ok(Instruction::Sub) => {
                let (r1, r2, w) = (ins[1], ins[2], ins[3]);
                if r1 >= 8 {
                    return Err(VmFault::BadRegister(r1));
                }
                if r2 >= 8 {
                    return Err(VmFault::BadRegister(r2));
                }
                let a = self.read_from_reg(r1);
                let b = self.read_from_reg(r2);
                if a > u64::MAX - b {
                    return Err(VmFault::Overflow);
                }
                if w >= 8 {
                    return Err(VmFault::BadRegister(w));
                }
                self.write_to_reg(w, a + b);
                Ok(true)
            },
            Ok(Instruction::SetProgramCounter) => {
                self.write_to_program_counter(deserialize_u32_array(1, &ins));
                Ok(true)
            },
            Ok(Instruction::ClearAllRegisters) => {
                let mut idx: u8 = 0;
                while idx < 8
                    invariant
                        idx <= 8,
                        self.state().0.len() == 8,
                        self.state().1 == old(self).state().1,
                        self.state().2 == old(self).state().2,
                        self.state().3 == old(self).state().3,
                        forall|j: int| 0 <= j < idx ==> self.state().0[j] == 0,
                    decreases 8 - idx,
                {
                    self.write_to_reg(idx, 0);
                    idx = idx + 1;
                }
                assert(self.state().0 =~= Seq::new(8, |i: int| 0u64));
                Ok(true)
            },
            Ok(Instruction::ClearRegister) => {
                let r = ins[1];
                if r >= 8 {
                    return Err(VmFault::BadRegister(r));
                }
                self.write_to_reg(r, 0);
                Ok(true)
            },
            Ok(Instruction::RegisterWrite) => {
                let (l, r) = (ins[1], ins[2]);
                if l >= 8 {
                    return Err(VmFault::BadRegister(l));
                }
                if r >= 8 {
                    return Err(VmFault::BadRegister(r));
                }
                let v = self.read_from_reg(l);
                self.write_to_reg(r, v);
                Ok(true)
            },
            Ok(Instruction::IfEqSPCElsePass) => {
                let (r1, r2) = (ins[1], ins[2]);
                if r1 >= 8 {
                    return Err(VmFault::BadRegister(r1));
                }
                if r2 >= 8 {
                    return Err(VmFault::BadRegister(r2));
                }
                if self.read_from_reg(r1) == self.read_from_reg(r2) {
                    self.program_counter = deserialize_u32_array(3, &ins);
                }
                Ok(true)
            },
            Ok(Instruction::IncrementReg) => {
                let r = ins[1];
                if r >= 8 {
                    return Err(VmFault::BadRegister(r));
                }
                let v = self.read_from_reg(r);
                if v == u64::MAX {
                    return Err(VmFault::Overflow);
                }
                self.write_to_reg(r, v + 1);
                Ok(true)
            },
        }
    }
}

/// The Fibonacci numbers: `fib(0) == 0`, `fib(1) == 1`.
pub open spec fn fib(n: nat) -> nat
    decreases n,
{
    if n == 0 {
        0
    } else if n == 1 {
        1
    } else {
        fib((n - 1) as nat) + fib((n - 2) as nat)
    }
}

proof fn lemma_fib_monotonic(m: nat, n: nat)
    requires
        m <= n,
    ensures
        fib(m) <= fib(n),
    decreases n - m,
{
    if m < n {
        lemma_fib_monotonic(m, (n - 1) as nat);
    }
}

/// `fib(n + 1)`, by iteration.
pub fn fib_n(n: usize) -> (r: u64)
    requires
        fib((n + 1) as nat) <= u64::MAX,
    ensures
        r == fib((n + 1) as nat),
{
    let mut a: u64 = 0;
    let mut b: u64 = 1;
    let mut i: usize = 0;
    while i < n
        invariant
            i <= n,
            fib((n + 1) as nat) <= u64::MAX,
            a == fib(i as nat),
            b == fib((i + 1) as nat),
        decreases n - i,
    {
        proof {
            lemma_fib_monotonic((i + 2) as nat, (n + 1) as nat);
        }
        let tmp = b + a;
        a = b;
        b = tmp;
        i = i + 1;
    }
    b
}

/// The program that counts Fibonacci numbers up to `n`: three data words
/// (`0`, `1`, `n`), then code from address 3 that leaves `fib(n + 1)` in
/// register 1 and jumps to address 0, an exit, when done.
pub open spec fn fib_program(n: u64) -> Seq<u64> {
    seq![0, 1, n, 1, 1099511628033, 2199023256065, 197129, 117506051, 264, 67336, 778, 1541]
}

/// The machine that runs `fib_program(n)` in 100 words of memory, from
/// address 3.
pub open spec fn fib_machine(n: u64) -> MachineState {
    let p = fib_program(n);
    (
        Seq::new(8, |i: int| 0u64),
        Seq::new(100, |i: int| if i < p.len() { p[i] } else { 0u64 }),
        3u32,
        Seq::new(8, |i: int| 0u8),
    )
}

/// Runs the Fibonacci program for `n` until it stops, and reads register 1.
pub fn comp_fib(n: usize) -> (r: Result<u64, VmFault>)
    ensures
        ({
            let (res, s) = run_spec(fib_machine(n as u64), u64::MAX as nat);
            r == match res {
                Ok(_) => Ok::<u64, VmFault>(s.0[1]),
                Err(e) => Err(e),
            }
        }),
{
    let memory = Memory::<100>::new();
    let program: Vec<u64> = vec![
        0,
        1,
        n as u64,
        incode_instr([1, 0, 0, 0, 0, 0, 0, 0]),
        incode_instr([1, 1, 0, 0, 0, 1, 0, 0]),
        incode_instr([1, 2, 0, 0, 0, 2, 0, 0]),
        incode_instr([9, 2, 3, 0, 0, 0, 0, 0]),
        incode_instr([3, 0, 1, 7, 0, 0, 0, 0]),
        incode_instr([8, 1, 0, 0, 0, 0, 0, 0]),
        incode_instr([8, 7, 1, 0, 0, 0, 0, 0]),
        incode_instr([10, 3, 0, 0, 0, 0, 0, 0]),
        incode_instr([5, 6, 0, 0, 0, 0, 0, 0]),
    ];
    let mut memory_controller = MemoryController::new_from(memory);
    memory_controller.load_program_external(&program, 0);
    let mut computer = CPU::new(memory_controller);
    computer.write_to_program_counter(3);
    assert(computer.state() =~~= fib_machine(n as u64));
    match computer.run(u64::MAX) {
        Ok(_) => Ok(computer.read_from_reg(1)),
        Err(e) => Err(e),
    }
}

} // verus!
