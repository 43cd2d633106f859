use vstd::prelude::*;

use crate::instructions::{arity, lemma_round_trip, op_id, op_of_id, Instruction, NUM_INSTRUCTIONS};

verus! {

/// What a single step can end with, other than going on.
#[derive(Debug, Clone, Copy, PartialEq, Eq, Structural)]
pub enum StepResult {
    ReadOutOfBounds,
    WriteOutOfBounds,
    EndOfProgram,
    ArgOutOfBounds,
    UnknownOp(u8),
    /// `mod` with A equal to zero.
    DivisionByZero,
    Flush,
}

/// Why a run stopped without producing a frame.
#[derive(Debug, Clone, Copy, PartialEq, Eq, Structural)]
pub enum RunError {
    /// A step ended with something other than a flush.
    Stopped(StepResult),
    /// The step budget ran out before a flush.
    StepLimit,
}

#[derive(Debug, Clone, Copy, PartialEq, Eq, Structural)]
pub enum Register {
    /// Arithmetic register.
    A,
    /// Arithmetic register that reads and writes go through.
    B,
    /// Instruction pointer.
    IP,
    /// Input register: bit 0 left, 1 right, 2 down, 3 up.
    INP,
}

/// The three address spaces of a machine.
#[derive(Debug, Clone, Copy, PartialEq, Eq, Structural)]
enum SectionType {
    Program,
    Ram,
    VRam,
}

/// Everything a program can observe or change.
pub struct MachineState {
    pub program: Seq<u8>,
    pub ram: Seq<u8>,
    pub vram: Seq<u8>,
    pub a: u8,
    pub b: u8,
    pub ip: u8,
    pub inp: u8,
}

impl MachineState {
    /// All three memories hold exactly 256 bytes.
    pub open spec fn wf(self) -> bool {
        self.program.len() == 256 && self.ram.len() == 256 && self.vram.len() == 256
    }
}

/// The value of a register.
pub open spec fn reg_value(s: MachineState, reg: Register) -> u8 {
    match reg {
        Register::A => s.a,
        Register::B => s.b,
        Register::IP => s.ip,
        Register::INP => s.inp,
    }
}

/// The state with one register replaced.
pub open spec fn with_reg(s: MachineState, reg: Register, val: u8) -> MachineState {
    match reg {
        Register::A => MachineState { a: val, ..s },
        Register::B => MachineState { b: val, ..s },
        Register::IP => MachineState { ip: val, ..s },
        Register::INP => MachineState { inp: val, ..s },
    }
}

/// `b` shifted left by `n` bits, keeping the low eight; zero from eight bits on.
pub open spec fn shl_byte(b: u8, n: u8) -> u8 {
    if n < 8 {
        b << n
    } else {
        0
    }
}

/// `b` shifted right by `n` bits; zero from eight bits on.
pub open spec fn shr_byte(b: u8, n: u8) -> u8 {
    if n < 8 {
        b >> n
    } else {
        0
    }
}

/// The effect of an instruction other than a jump on registers A, B and on
/// RAM and VRAM. IP is left as it is.
pub open spec fn execute(op: Instruction, arg: u8, s: MachineState) -> MachineState {
    match op {
        Instruction::SetA => MachineState { a: arg, ..s },
        Instruction::SetB => MachineState { b: arg, ..s },
        Instruction::Swap => MachineState { a: s.b, b: s.a, ..s },
        Instruction::WriteRam => MachineState { ram: s.ram.update(arg as int, s.b), ..s },
        Instruction::ReadRam => MachineState { b: s.ram[arg as int], ..s },
        Instruction::WriteRamA => MachineState { ram: s.ram.update(s.a as int, s.b), ..s },
        Instruction::ReadRamA => MachineState { b: s.ram[s.a as int], ..s },
        Instruction::WriteVRam => MachineState { vram: s.vram.update(s.a as int, arg), ..s },
        Instruction::ReadVRam => MachineState { b: s.vram[s.a as int], ..s },
        Instruction::ReadInp => MachineState { b: s.inp & arg, ..s },
        Instruction::Add => MachineState { b: ((s.b + s.a) % 256) as u8, ..s },
        Instruction::Mul => MachineState { b: ((s.b * s.a) % 256) as u8, ..s },
        Instruction::Mod => MachineState { b: (s.b % s.a) as u8, ..s },
        Instruction::Or => MachineState { b: s.b | s.a, ..s },
        Instruction::And => MachineState { b: s.b & s.a, ..s },
        Instruction::Xor => MachineState { b: s.b ^ s.a, ..s },
        Instruction::Not => MachineState { b: !s.b, ..s },
        Instruction::Shl => MachineState { b: shl_byte(s.b, arg), ..s },
        Instruction::Shr => MachineState { b: shr_byte(s.b, arg), ..s },
        Instruction::Increment => MachineState { a: ((s.a + 1) % 256) as u8, ..s },
        Instruction::Decrement => MachineState { a: ((s.a + 255) % 256) as u8, ..s },
        Instruction::FillVRam => MachineState { vram: Seq::new(256, |i: int| arg), ..s },
        _ => s,
    }
}

/// One fetch-decode-execute step: the state after it, and `None` when
/// execution simply goes on.
#[verifier::opaque]
pub open spec fn step_spec(s: MachineState) -> (MachineState, Option<StepResult>) {
    let code = s.program[s.ip as int];
    match op_of_id(code) {
        None => (s, Some(StepResult::UnknownOp(code))),
        Some(op) => if s.ip + arity(op) > 255 {
            (s, Some(StepResult::ArgOutOfBounds))
        } else {
            let arg = if arity(op) == 1 {
                s.program[s.ip + 1]
            } else {
                0u8
            };
            if op == Instruction::Mod && s.a == 0 {
                (s, Some(StepResult::DivisionByZero))
            } else if op == Instruction::Jump || (op == Instruction::JumpINZ && s.b != 0) {
                (MachineState { ip: arg, ..s }, None)
            } else {
                let t = execute(op, arg, s);
                if s.ip + 1 + arity(op) > 255 {
                    (t, Some(StepResult::EndOfProgram))
                } else {
                    (
                        MachineState { ip: (s.ip + 1 + arity(op)) as u8, ..t },
                        if op == Instruction::Flush {
                            Some(StepResult::Flush)
                        } else {
                            None
                        },
                    )
                }
            }
        },
    }
}

/// Stepping until something other than going on happens, for at most `fuel`
/// steps: the final state and either the VRAM of a flush or why it stopped.
pub open spec fn run_spec(s: MachineState, fuel: nat) -> (MachineState, Result<Seq<u8>, RunError>)
    decreases fuel,
{
    if fuel == 0 {
        (s, Err(RunError::StepLimit))
    } else {
        let (t, r) = step_spec(s);
        match r {
            None => run_spec(t, (fuel - 1) as nat),
            Some(StepResult::Flush) => (t, Ok(t.vram)),
            Some(e) => (t, Err(RunError::Stopped(e))),
        }
    }
}

/// A frame result seen through the view of its array.
pub open spec fn frame_view(r: Result<[u8; 256], RunError>) -> Result<Seq<u8>, RunError> {
    match r {
        Ok(v) => Ok(v@),
        Err(e) => Err(e),
    }
}

struct Memory {
    program: [u8; 256],
    ram: [u8; 256],
    vram: [u8; 256],
}

/// `s` after copying `n` bytes one at a time, in increasing order, from
/// offset `from` to offset `to`.
pub open spec fn copied(s: Seq<u8>, from: int, to: int, n: nat) -> Seq<u8>
    decreases n,
{
    if n == 0 {
        s
    } else {
        let t = copied(s, from, to, (n - 1) as nat);
        t.update(to + n - 1, t[from + n - 1])
    }
}

impl Memory {
    spec fn section(&self, mem: SectionType) -> Seq<u8> {
        match mem {
            SectionType::Program => self.program@,
            SectionType::Ram => self.ram@,
            SectionType::VRam => self.vram@,
        }
    }

    fn new() -> (r: Memory)
        ensures
            forall|mem: SectionType| #[trigger] r.section(mem) == Seq::new(256, |i: int| 0u8),
    {
        let r = Memory { program: [0; 256], ram: [0; 256], vram: [0; 256] };
        assert(r.program@ =~= Seq::new(256, |i: int| 0u8));
        assert(r.ram@ =~= Seq::new(256, |i: int| 0u8));
        assert(r.vram@ =~= Seq::new(256, |i: int| 0u8));
        r
    }

    fn get_section(&self, mem: SectionType) -> (r: &[u8; 256])
        ensures
            r@ == self.section(mem),
    {
        match mem {
            SectionType::Program => &self.program,
            SectionType::Ram => &self.ram,
            SectionType::VRam => &self.vram,
        }
    }

    fn read(&self, p: u8, mem: SectionType) -> (r: u8)
        ensures
            r == self.section(mem)[p as int],
    {
        self.get_section(mem)[p as usize]
    }

    fn write(&mut self, p: u8, val: u8, mem: SectionType)
        ensures
            final(self).section(mem) == old(self).section(mem).update(p as int, val),
            forall|m: SectionType| m != mem ==> #[trigger] final(self).section(m) == old(self).section(m),
    {
        match mem {
            SectionType::Program => self.program[p as usize] = val,
            SectionType::Ram => self.ram[p as usize] = val,
            SectionType::VRam => self.vram[p as usize] = val,
        }
    }

    /// Copies `num` bytes from `from_p` to `to_p` within one section, one
    /// byte at a time in increasing order. Nothing is copied when either
    /// range would run past the end.
    #[allow(dead_code)]
    fn copy(&mut self, from_p: u8, to_p: u8, num: u8, mem: SectionType) -> (r: Result<(), StepResult>)
        ensures
            from_p + num - 1 > 255 ==> r == Err::<(), StepResult>(StepResult::ReadOutOfBounds)
                && final(self).section(mem) == old(self).section(mem),
            from_p + num - 1 <= 255 && to_p + num - 1 > 255 ==> r == Err::<(), StepResult>(
                StepResult::WriteOutOfBounds,
            ) && final(self).section(mem) == old(self).section(mem),
            from_p + num - 1 <= 255 && to_p + num - 1 <= 255 ==> r is Ok && final(self).section(mem)
                == copied(old(self).section(mem), from_p as int, to_p as int, num as nat),
            forall|m: SectionType| m != mem ==> #[trigger] final(self).section(m) == old(self).section(m),
    {
        if from_p as u16 + num as u16 > 256 {
            return Err(StepResult::ReadOutOfBounds);
        }
        if to_p as u16 + num as u16 > 256 {
            return Err(StepResult::WriteOutOfBounds);
        }
        let ghost start = self.section(mem);
        let mut k: u8 = 0;
        while k < num
            invariant
                k <= num,
                from_p + num <= 256,
                to_p + num <= 256,
                start.len() == 256,
                self.section(mem) == copied(start, from_p as int, to_p as int, k as nat),
                forall|m: SectionType| m != mem ==> #[trigger] self.section(m) == old(self).section(m),
            decreases num - k,
        {
            proof {
                lemma_copied_len(start, from_p as int, to_p as int, k as nat);
            }
            let val = self.read(from_p + k, mem);
            self.write(to_p + k, val, mem);
            k = k + 1;
        }
        Ok(())
    }

    fn fill(&mut self, val: u8, mem: SectionType)
        ensures
            final(self).section(mem) == Seq::new(256, |i: int| val),
            forall|m: SectionType| m != mem ==> #[trigger] final(self).section(m) == old(self).section(m),
    {
        match mem {
            SectionType::Program => self.program = [val; 256],
            SectionType::Ram => self.ram = [val; 256],
            SectionType::VRam => self.vram = [val; 256],
        }
        assert(self.section(mem) =~= Seq::new(256, |i: int| val));
    }
}

proof fn lemma_copied_len(s: Seq<u8>, from: int, to: int, n: nat)
    requires
        0 <= to,
        to + n <= s.len(),
    ensures
        copied(s, from, to, n).len() == s.len(),
    decreases n,
{
    if n > 0 {
        lemma_copied_len(s, from, to, (n - 1) as nat);
    }
}

/// An 8-bit machine: four registers and three 256-byte memories.
pub struct Machine {
    memory: Memory,
    registers: [u8; 4],
}

impl View for Machine {
    type V = MachineState;

    closed spec fn view(&self) -> MachineState {
        MachineState {
            program: self.memory.program@,
            ram: self.memory.ram@,
            vram: self.memory.vram@,
            a: self.registers[0],
            b: self.registers[1],
            ip: self.registers[2],
            inp: self.registers[3],
        }
    }
}

fn reg_slot(reg: Register) -> (r: usize)
    ensures
        r < 4,
        r == match reg {
            Register::A => 0usize,
            Register::B => 1usize,
            Register::IP => 2usize,
            Register::INP => 3usize,
        },
{
    match reg {
        Register::A => 0,
        Register::B => 1,
        Register::IP => 2,
        Register::INP => 3,
    }
}

impl Machine {
    /// A machine with every register and every memory byte zero.
    pub fn new() -> (r: Machine)
        ensures
            r@.wf(),
            r@.program == Seq::new(256, |i: int| 0u8),
            r@.ram == Seq::new(256, |i: int| 0u8),
            r@.vram == Seq::new(256, |i: int| 0u8),
            r@.a == 0 && r@.b == 0 && r@.ip == 0 && r@.inp == 0,
    {
        let memory = Memory::new();
        assert(memory.section(SectionType::Program) == memory.program@);
        assert(memory.section(SectionType::Ram) == memory.ram@);
        assert(memory.section(SectionType::VRam) == memory.vram@);
        Machine { memory, registers: [0; 4] }
    }

    /// The memories and registers always have their fixed sizes.
    pub proof fn lemma_wf(&self)
        ensures
            self@.wf(),
    {
    }

    /// Replaces the program image.
    pub fn load_program(&mut self, program: [u8; 256])
        ensures
            final(self)@ == (MachineState { program: program@, ..old(self)@ }),
    {
        self.memory.program = program;
    }

    pub fn read_reg(&self, reg: Register) -> (r: u8)
        ensures
            r == reg_value(self@, reg),
    {
        self.registers[reg_slot(reg)]
    }

    pub fn write_reg(&mut self, reg: Register, val: u8)
        ensures
            final(self)@ == with_reg(old(self)@, reg, val),
    {
        self.registers[reg_slot(reg)] = val;
    }

    /// Executes the instruction at IP. `None` means execution goes on.
    pub fn step(&mut self) -> (r: Option<StepResult>)
        ensures
            (final(self)@, r) == step_spec(old(self)@),
    {
        reveal(step_spec);
        let ip = self.read_reg(Register::IP);
        let code = self.memory.read(ip, SectionType::Program);
        let op = match Instruction::from_id(code) {
            None => return Some(StepResult::UnknownOp(code)),
            Some(op) => op,
        };
        let num_args = op.num_args();
        if 255 - ip < num_args {
            return Some(StepResult::ArgOutOfBounds);
        }
        let arg: u8 = if num_args == 1 {
            self.memory.read(ip + 1, SectionType::Program)
        } else {
            0
        };
        let a = self.read_reg(Register::A);
        let b = self.read_reg(Register::B);
        let ghost s0 = self@;
        match op {
            Instruction::Jump => {
                self.write_reg(Register::IP, arg);
                return None;
            },
            Instruction::JumpINZ => {
                if b != 0 {
                    self.write_reg(Register::IP, arg);
                    return None;
                }
            },
            Instruction::SetA => self.write_reg(Register::A, arg),
            Instruction::SetB => self.write_reg(Register::B, arg),
            Instruction::Swap => {
                self.write_reg(Register::A, b);
                self.write_reg(Register::B, a);
            },
            Instruction::WriteRam => {
                self.memory.write(arg, b, SectionType::Ram);
                assert(self.memory.section(SectionType::Program) == self.memory.program@);
                assert(self.memory.section(SectionType::Ram) == self.memory.ram@);
                assert(self.memory.section(SectionType::VRam) == self.memory.vram@);
            },
            Instruction::ReadRam => {
                let v = self.memory.read(arg, SectionType::Ram);
                self.write_reg(Register::B, v);
            },
            Instruction::WriteRamA => {
                self.memory.write(a, b, SectionType::Ram);
                assert(self.memory.section(SectionType::Program) == self.memory.program@);
                assert(self.memory.section(SectionType::Ram) == self.memory.ram@);
                assert(self.memory.section(SectionType::VRam) == self.memory.vram@);
            },
            Instruction::ReadRamA => {
                let v = self.memory.read(a, SectionType::Ram);
                self.write_reg(Register::B, v);
            },
            Instruction::WriteVRam => {
                self.memory.write(a, arg, SectionType::VRam);
                assert(self.memory.section(SectionType::Program) == self.memory.program@);
                assert(self.memory.section(SectionType::Ram) == self.memory.ram@);
                assert(self.memory.section(SectionType::VRam) == self.memory.vram@);
            },
            Instruction::ReadVRam => {
                let v = self.memory.read(a, SectionType::VRam);
                self.write_reg(Register::B, v);
            },
            Instruction::ReadInp => {
                let inp = self.read_reg(Register::INP);
                self.write_reg(Register::B, inp & arg);
            },
            Instruction::Add => self.write_reg(Register::B, ((b as u16 + a as u16) % 256) as u8),
            Instruction::Mul => {
                assert((b as u16) * (a as u16) <= 65025) by (nonlinear_arith)
                    requires
                        a <= 255,
                        b <= 255,
                ;
                self.write_reg(Register::B, ((b as u16 * a as u16) % 256) as u8);
            },
            Instruction::Mod => {
                if a == 0 {
                    return Some(StepResult::DivisionByZero);
                }
                self.write_reg(Register::B, b % a);
            },
            Instruction::Or => self.write_reg(Register::B, b | a),
            Instruction::And => self.write_reg(Register::B, b & a),
            Instruction::Xor => self.write_reg(Register::B, b ^ a),
            Instruction::Not => self.write_reg(Register::B, !b),
            Instruction::Shl => {
                let v: u8 = if arg < 8 {
                    b << arg
                } else {
                    0
                };
                self.write_reg(Register::B, v);
            },
            Instruction::Shr => {
                let v: u8 = if arg < 8 {
                    b >> arg
                } else {
                    0
                };
                self.write_reg(Register::B, v);
            },
            Instruction::Increment => self.write_reg(Register::A, if a == 255 { 0 } else { a + 1 }),
            Instruction::Decrement => self.write_reg(Register::A, if a == 0 { 255 } else { a - 1 }),
            Instruction::FillVRam => {
                self.memory.fill(arg, SectionType::VRam);
                assert(self.memory.section(SectionType::Program) == self.memory.program@);
                assert(self.memory.section(SectionType::Ram) == self.memory.ram@);
                assert(self.memory.section(SectionType::VRam) == self.memory.vram@);
                assert(self@.vram =~= execute(op, arg, s0).vram);
            },
            Instruction::NoOp | Instruction::Flush => {},
        }
        assert(self@ == execute(op, arg, s0));
        if ip as u16 + 1 + num_args as u16 > 255 {
            return Some(StepResult::EndOfProgram);
        }
        self.write_reg(Register::IP, ip + 1 + num_args);
        if op == Instruction::Flush {
            Some(StepResult::Flush)
        } else {
            None
        }
    }

    /// Steps until a flush, which yields a copy of VRAM, until a step stops
    /// the program, or until `max_steps` steps have gone on without either.
    pub fn loop_till_flush(&mut self, max_steps: u64) -> (r: Result<[u8; 256], RunError>)
        ensures
            (final(self)@, frame_view(r)) == run_spec(old(self)@, max_steps as nat),
    {
        let ghost start = self@;
        let mut left = max_steps;
        loop
            invariant
                start == old(self)@,
                run_spec(self@, left as nat) == run_spec(start, max_steps as nat),
            decreases left,
        {
            if left == 0 {
                return Err(RunError::StepLimit);
            }
            let ghost before = self@;
            let r = self.step();
            assert(run_spec(before, left as nat) == match r {
                None => run_spec(self@, (left - 1) as nat),
                Some(StepResult::Flush) => (self@, Ok(self@.vram)),
                Some(e) => (self@, Err(RunError::Stopped(e))),
            });
            match r {
                None => left = left - 1,
                Some(StepResult::Flush) => return Ok(self.memory.vram),
                Some(e) => return Err(RunError::Stopped(e)),
            }
        }
    }
}

/// A byte outside the catalog at IP is reported as an unknown opcode and
/// never executed: registers, IP and memories stay as they were.
pub proof fn lemma_unknown_op_not_executed(s: MachineState)
    requires
        s.wf(),
        s.program[s.ip as int] >= NUM_INSTRUCTIONS,
    ensures
        step_spec(s) == (s, Some(StepResult::UnknownOp(s.program[s.ip as int]))),
{
    reveal(step_spec);
}

/// An instruction with one operand at the last program byte has no room for
/// its operand: the step reports ArgOutOfBounds and changes nothing.
pub proof fn lemma_operand_past_end(s: MachineState, op: Instruction)
    requires
        s.wf(),
        s.ip == 255,
        s.program[255] == op_id(op),
        arity(op) == 1,
    ensures
        step_spec(s) == (s, Some(StepResult::ArgOutOfBounds)),
{
    reveal(step_spec);
    lemma_round_trip(op);
}

/// `flv v` sets every VRAM cell to `v`, and a later `rev` reads `v` back
/// whatever A holds, as long as VRAM has not changed in between.
pub proof fn lemma_fill_then_read(s: MachineState, u: MachineState)
    requires
        s.wf(),
        s.ip < 255,
        s.program[s.ip as int] == op_id(Instruction::FillVRam),
    ensures
        forall|i: int| 0 <= i < 256 ==> step_spec(s).0.vram[i] == s.program[s.ip + 1],
        u.wf() && u.vram == step_spec(s).0.vram && u.program[u.ip as int] == op_id(
            Instruction::ReadVRam,
        ) ==> step_spec(u).0.b == s.program[s.ip + 1],
{
    reveal(step_spec);
    lemma_round_trip(Instruction::FillVRam);
    lemma_round_trip(Instruction::ReadVRam);
}

/// Arithmetic on A and B wraps modulo 256: `add` leaves (B + A) mod 256 in
/// B, `inc` leaves (A + 1) mod 256 and `dec` (A - 1) mod 256 in A.
pub proof fn lemma_arithmetic_wraps(s: MachineState)
    requires
        s.wf(),
        s.ip < 255,
    ensures
        s.program[s.ip as int] == op_id(Instruction::Add) ==> step_spec(s).0.b == (s.b + s.a) % 256,
        s.program[s.ip as int] == op_id(Instruction::Increment) ==> step_spec(s).0.a == (s.a + 1)
            % 256,
        s.program[s.ip as int] == op_id(Instruction::Decrement) ==> step_spec(s).0.a == (s.a - 1)
            % 256,
{
    reveal(step_spec);
    lemma_round_trip(Instruction::Add);
    lemma_round_trip(Instruction::Increment);
    lemma_round_trip(Instruction::Decrement);
}

} // verus!
