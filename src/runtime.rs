use crate::program::{
    Program, ProgramView, CELL_DEC, CELL_INC, INPUT, LOOP_END, LOOP_START, OUTPUT, PTR_LEFT,
    PTR_RIGHT,
};
use vstd::prelude::*;

verus! {

/// Number of cells on the tape.
pub const PROGRAM_MEMORY: usize = 30000;

/// `x + 1`, wrapping to zero past `usize::MAX`.
pub open spec fn wrapping_inc(x: usize) -> usize {
    if x == usize::MAX {
        0
    } else {
        (x + 1) as usize
    }
}

/// `x - 1`, wrapping to `usize::MAX` below zero.
pub open spec fn wrapping_dec(x: usize) -> usize {
    if x == 0 {
        usize::MAX
    } else {
        (x - 1) as usize
    }
}

/// A cell after an increment, modulo 256.
pub open spec fn cell_inc(v: u8) -> u8 {
    ((v + 1) % 256) as u8
}

/// A cell after a decrement, modulo 256.
pub open spec fn cell_dec(v: u8) -> u8 {
    ((v + 255) % 256) as u8
}

/// The model of an execution session.
pub struct RuntimeState {
    pub pc: usize,
    pub mem_ptr: usize,
    pub mem: Seq<u8>,
}

/// An execution session: program counter, memory pointer and tape.
pub struct ProgramRuntime {
    pc: usize,
    mem: Vec<u8>,
    mem_ptr: usize,
}

/// A fault that ends a session.
#[derive(Debug, PartialEq, Eq, Structural)]
pub enum ProgramRuntimeError {
    ReadAccessViolation,
    WriteAccessViolation,
    /// The input source gave no byte for an input instruction.
    InputUnavailable,
}

/// What a step did.
#[derive(Debug, PartialEq, Eq, Structural)]
pub enum ProgramRuntimeStatus {
    RanInstructionAtPC(usize),
    /// The output instruction at the index ran and emitted the byte.
    OutputAtPC(usize, u8),
    EndOfProgram,
}

/// The session `s` after the cell under the pointer is set to `v` and the
/// counter moves on.
pub open spec fn store_and_advance(s: RuntimeState, v: u8) -> RuntimeState {
    RuntimeState { pc: wrapping_inc(s.pc), mem_ptr: s.mem_ptr, mem: s.mem.update(s.mem_ptr as int, v) }
}

/// The session `s` with the counter moved to `pc`.
pub open spec fn jump(s: RuntimeState, pc: usize) -> RuntimeState {
    RuntimeState { pc, mem_ptr: s.mem_ptr, mem: s.mem }
}

/// One step of `p` from `s`, with `input` the byte an input instruction
/// would take: the next session and the status, or the fault.
pub open spec fn step_spec(s: RuntimeState, p: ProgramView, input: Option<u8>) -> Result<
    (RuntimeState, ProgramRuntimeStatus),
    ProgramRuntimeError,
> {
    let pc = s.pc;
    let next = jump(s, wrapping_inc(pc));
    let ran = ProgramRuntimeStatus::RanInstructionAtPC(pc);
    let in_bounds = s.mem_ptr < s.mem.len();
    let cell = s.mem[s.mem_ptr as int];
    if pc >= p.code.len() {
        Ok((s, ProgramRuntimeStatus::EndOfProgram))
    } else {
        let op = p.code[pc as int];
        if op == PTR_RIGHT {
            Ok((RuntimeState { pc: next.pc, mem_ptr: wrapping_inc(s.mem_ptr), mem: s.mem }, ran))
        } else if op == PTR_LEFT {
            Ok((RuntimeState { pc: next.pc, mem_ptr: wrapping_dec(s.mem_ptr), mem: s.mem }, ran))
        } else if op == CELL_INC || op == CELL_DEC {
            if !in_bounds {
                Err(ProgramRuntimeError::WriteAccessViolation)
            } else if op == CELL_INC {
                Ok((store_and_advance(s, cell_inc(cell)), ran))
            } else {
                Ok((store_and_advance(s, cell_dec(cell)), ran))
            }
        } else if op == OUTPUT {
            if !in_bounds {
                Err(ProgramRuntimeError::ReadAccessViolation)
            } else {
                Ok((next, ProgramRuntimeStatus::OutputAtPC(pc, cell)))
            }
        } else if op == INPUT {
            match input {
                None => Err(ProgramRuntimeError::InputUnavailable),
                Some(b) => if !in_bounds {
                    Err(ProgramRuntimeError::WriteAccessViolation)
                } else {
                    Ok((store_and_advance(s, b), ran))
                },
            }
        } else if op == LOOP_START || op == LOOP_END {
            if !in_bounds {
                Err(ProgramRuntimeError::ReadAccessViolation)
            } else if (op == LOOP_START && cell == 0) || (op == LOOP_END && cell != 0) {
                Ok((jump(s, wrapping_inc(p.links[pc])), ran))
            } else {
                Ok((next, ran))
            }
        } else {
            Ok((next, ran))
        }
    }
}

/// Cell arithmetic wraps: one past 255 is 0 and one below 0 is 255, and a
/// decrement undoes an increment.
pub proof fn lemma_cell_arithmetic_wraps(v: u8)
    ensures
        cell_inc(255) == 0,
        cell_dec(0) == 255,
        cell_dec(cell_inc(v)) == v,
        cell_inc(cell_dec(v)) == v,
{
}

/// Once the counter has run past the program, every step reports the end
/// and changes nothing.
pub proof fn lemma_end_of_program_is_final(s: RuntimeState, p: ProgramView, input: Option<u8>)
    requires
        s.pc >= p.code.len(),
    ensures
        step_spec(s, p, input) == Ok::<(RuntimeState, ProgramRuntimeStatus), ProgramRuntimeError>(
            (s, ProgramRuntimeStatus::EndOfProgram),
        ),
{
}

/// Bounds are the tape's length, not the pointer's range: with the pointer
/// on the last cell, a rightward move succeeds, and the memory access that
/// follows it faults, a read for output and loops, a write otherwise.
pub proof fn lemma_past_tape_end_faults(
    s: RuntimeState,
    p: ProgramView,
    input: Option<u8>,
    next_input: Option<u8>,
)
    requires
        s.mem.len() == PROGRAM_MEMORY,
        s.mem_ptr == PROGRAM_MEMORY - 1,
        s.pc < p.code.len(),
        p.code[s.pc as int] == PTR_RIGHT,
    ensures
        step_spec(s, p, input) is Ok,
        ({
            let t = step_spec(s, p, input)->Ok_0.0;
            &&& t.mem_ptr == s.mem.len()
            &&& t.mem == s.mem
            &&& t.pc < p.code.len() ==> {
                let op = p.code[t.pc as int];
                &&& (op == CELL_INC || op == CELL_DEC || (op == INPUT && next_input is Some))
                    ==> step_spec(t, p, next_input) == Err::<
                    (RuntimeState, ProgramRuntimeStatus),
                    ProgramRuntimeError,
                >(ProgramRuntimeError::WriteAccessViolation)
                &&& (op == OUTPUT || op == LOOP_START || op == LOOP_END) ==> step_spec(
                    t,
                    p,
                    next_input,
                ) == Err::<(RuntimeState, ProgramRuntimeStatus), ProgramRuntimeError>(
                    ProgramRuntimeError::ReadAccessViolation,
                )
            }
        }),
{
}

impl View for ProgramRuntime {
    type V = RuntimeState;

    closed spec fn view(&self) -> RuntimeState {
        RuntimeState { pc: self.pc, mem_ptr: self.mem_ptr, mem: self.mem@ }
    }
}

impl ProgramRuntime {
    /// A fresh session: counter and pointer at zero, every cell zero.
    pub fn new() -> (r: Self)
        ensures
            r@.pc == 0,
            r@.mem_ptr == 0,
            r@.mem == Seq::new(PROGRAM_MEMORY as nat, |i: int| 0u8),
    {
        let mut mem: Vec<u8> = Vec::new();
        let mut i: usize = 0;
        while i < PROGRAM_MEMORY
            invariant
                i <= PROGRAM_MEMORY,
                mem@ == Seq::new(i as nat, |k: int| 0u8),
            decreases PROGRAM_MEMORY - i,
        {
            mem.push(0);
            i += 1;
            assert(mem@ =~= Seq::new(i as nat, |k: int| 0u8));
        }
        ProgramRuntime { pc: 0, mem, mem_ptr: 0 }
    }

    /// The program counter.
    pub fn pc(&self) -> (r: usize)
        ensures
            r == self@.pc,
    {
        self.pc
    }

    /// The memory pointer.
    pub fn mem_ptr(&self) -> (r: usize)
        ensures
            r == self@.mem_ptr,
    {
        self.mem_ptr
    }

    /// The cell at `loc`, if it is on the tape.
    pub fn read_mem(&self, loc: usize) -> (r: Result<u8, ProgramRuntimeError>)
        ensures
            r == if loc < self@.mem.len() {
                Ok::<u8, ProgramRuntimeError>(self@.mem[loc as int])
            } else {
                Err(ProgramRuntimeError::ReadAccessViolation)
            },
    {
        if loc < self.mem.len() {
            Ok(self.mem[loc])
        } else {
            Err(ProgramRuntimeError::ReadAccessViolation)
        }
    }

    /// The cell under the pointer, if it is on the tape.
    pub fn read_mem_at_ptr(&self) -> (r: Result<u8, ProgramRuntimeError>)
        ensures
            r == if self@.mem_ptr < self@.mem.len() {
                Ok::<u8, ProgramRuntimeError>(self@.mem[self@.mem_ptr as int])
            } else {
                Err(ProgramRuntimeError::ReadAccessViolation)
            },
    {
        self.read_mem(self.mem_ptr)
    }

    /// Stores `val` at `loc`, if it is on the tape.
    pub fn write_mem(&mut self, loc: usize, val: u8) -> (r: Result<(), ProgramRuntimeError>)
        ensures
            loc < old(self)@.mem.len() ==> r is Ok && final(self)@ == (RuntimeState {
                mem: old(self)@.mem.update(loc as int, val),
                ..old(self)@
            }),
            loc >= old(self)@.mem.len() ==> r == Err::<(), ProgramRuntimeError>(
                ProgramRuntimeError::WriteAccessViolation,
            ) && final(self)@ == old(self)@,
    {
        if loc < self.mem.len() {
            self.mem[loc] = val;
            Ok(())
        } else {
            Err(ProgramRuntimeError::WriteAccessViolation)
        }
    }

    /// Stores `val` under the pointer, if it is on the tape.
    pub fn write_mem_at_ptr(&mut self, val: u8) -> (r: Result<(), ProgramRuntimeError>)
        ensures
            old(self)@.mem_ptr < old(self)@.mem.len() ==> r is Ok && final(self)@ == (RuntimeState {
                mem: old(self)@.mem.update(old(self)@.mem_ptr as int, val),
                ..old(self)@
            }),
            old(self)@.mem_ptr >= old(self)@.mem.len() ==> r == Err::<(), ProgramRuntimeError>(
                ProgramRuntimeError::WriteAccessViolation,
            ) && final(self)@ == old(self)@,
    {
        let loc = self.mem_ptr;
        self.write_mem(loc, val)
    }

    /// Adds one to the cell under the pointer, modulo 256, and returns the
    /// new value.
    pub fn inc_mem_at_ptr(&mut self) -> (r: Result<u8, ProgramRuntimeError>)
        ensures
            old(self)@.mem_ptr < old(self)@.mem.len() ==> {
                let v = cell_inc(old(self)@.mem[old(self)@.mem_ptr as int]);
                &&& r == Ok::<u8, ProgramRuntimeError>(v)
                &&& final(self)@ == (RuntimeState {
                    mem: old(self)@.mem.update(old(self)@.mem_ptr as int, v),
                    ..old(self)@
                })
            },
            old(self)@.mem_ptr >= old(self)@.mem.len() ==> r == Err::<u8, ProgramRuntimeError>(
                ProgramRuntimeError::WriteAccessViolation,
            ) && final(self)@ == old(self)@,
    {
        let loc = self.mem_ptr;
        if loc < self.mem.len() {
            let v = self.mem[loc].wrapping_add(1);
            self.mem[loc] = v;
            Ok(v)
        } else {
            Err(ProgramRuntimeError::WriteAccessViolation)
        }
    }

    /// Subtracts one from the cell under the pointer, modulo 256, and
    /// returns the new value.
    pub fn dec_mem_at_ptr(&mut self) -> (r: Result<u8, ProgramRuntimeError>)
        ensures
            old(self)@.mem_ptr < old(self)@.mem.len() ==> {
                let v = cell_dec(old(self)@.mem[old(self)@.mem_ptr as int]);
                &&& r == Ok::<u8, ProgramRuntimeError>(v)
                &&& final(self)@ == (RuntimeState {
                    mem: old(self)@.mem.update(old(self)@.mem_ptr as int, v),
                    ..old(self)@
                })
            },
            old(self)@.mem_ptr >= old(self)@.mem.len() ==> r == Err::<u8, ProgramRuntimeError>(
                ProgramRuntimeError::WriteAccessViolation,
            ) && final(self)@ == old(self)@,
    {
        let loc = self.mem_ptr;
        if loc < self.mem.len() {
            let v = self.mem[loc].wrapping_sub(1);
            self.mem[loc] = v;
            Ok(v)
        } else {
            Err(ProgramRuntimeError::WriteAccessViolation)
        }
    }
    /// Does the next step run an input instruction, and so need a byte?
    pub fn needs_input(&self, program: &Program) -> (r: bool)
        ensures
            r == (self@.pc < program@.code.len() && program@.code[self@.pc as int] == INPUT),
    {
        self.pc < program.len() && program.instruction(self.pc) == INPUT
    }

    /// Runs the instruction under the program counter. `input` is the byte
    /// an input instruction stores; other instructions ignore it. On a fault
    /// the session is left as it was.
    pub fn step(&mut self, program: &Program, input: Option<u8>) -> (r: Result<
        ProgramRuntimeStatus,
        ProgramRuntimeError,
    >)
        ensures
            match r {
                Ok(status) => step_spec(old(self)@, program@, input) == Ok::<
                    (RuntimeState, ProgramRuntimeStatus),
                    ProgramRuntimeError,
                >((final(self)@, status)),
                Err(e) => step_spec(old(self)@, program@, input) == Err::<
                    (RuntimeState, ProgramRuntimeStatus),
                    ProgramRuntimeError,
                >(e) && final(self)@ == old(self)@,
            },
    {
        let mut next_pc = self.pc.wrapping_add(1);
        let pc = self.pc;
        if pc >= program.len() {
            return Ok(ProgramRuntimeStatus::EndOfProgram);
        }
        let op = program.instruction(pc);
        let mut status = ProgramRuntimeStatus::RanInstructionAtPC(pc);
        if op == PTR_RIGHT {
            self.mem_ptr = self.mem_ptr.wrapping_add(1);
        } else if op == PTR_LEFT {
            self.mem_ptr = self.mem_ptr.wrapping_sub(1);
        } else if op == CELL_INC {
            self.inc_mem_at_ptr()?;
        } else if op == CELL_DEC {
            self.dec_mem_at_ptr()?;
        } else if op == OUTPUT {
            let v = self.read_mem_at_ptr()?;
            status = ProgramRuntimeStatus::OutputAtPC(pc, v);
        } else if op == INPUT {
            match input {
                Some(b) => {
                    self.write_mem_at_ptr(b)?;
                },
                None => {
                    return Err(ProgramRuntimeError::InputUnavailable);
                },
            }
        } else if op == LOOP_START {
            // jump past the matching end when the cell is zero
            if self.read_mem_at_ptr()? == 0 {
                next_pc = program.loop_partner(pc).wrapping_add(1);
            }
        } else if op == LOOP_END {
            // jump back past the matching start when the cell is not zero
            if self.read_mem_at_ptr()? != 0 {
                next_pc = program.loop_partner(pc).wrapping_add(1);
            }
        }
        self.pc = next_pc;
        Ok(status)
    }
}

} // verus!
