//! The execution engine: one mutable context of program memory, a register
//! bank, and the instruction pointer `ip` (register id 0), driven one opcode
//! at a time. A step fetches the byte `ip` points at, advances `ip`, and
//! decodes and executes the opcode against memory and registers; it either
//! continues or halts with a reason (`EndOfExecution` for the `END` opcode,
//! `UnexpectedInstruction` for an unknown opcode, `BadMemoryAccess` for any
//! out-of-range fetch or register access).

use vstd::prelude::*;

use crate::isa::{ADD_REG_REG, END, MOV_LIT_R1, MOV_LIT_R2, MOV_LIT_REG, REGISTER_COUNT};
use crate::isa::spec_register_index;
use crate::isa::register_index;
use crate::memory::{hi_byte, lo_byte, word_of, Memory, MemoryError};

verus! {

/// Why a run halted. Only `EndOfExecution` is a graceful halt; the other two
/// are faults.
#[derive(Debug, PartialEq, Eq, Structural, Clone, Copy)]
pub enum ExecutionError {
    BadMemoryAccess,
    UnexpectedInstruction,
    EndOfExecution,
}

impl From<MemoryError> for ExecutionError {
    /// Every memory fault coarsens to `BadMemoryAccess`.
    fn from(e: MemoryError) -> (r: Self)
        ensures
            r == ExecutionError::BadMemoryAccess,
    {
        ExecutionError::BadMemoryAccess
    }
}

impl vstd::std_specs::convert::FromSpecImpl<MemoryError> for ExecutionError {
    open spec fn obeys_from_spec() -> bool {
        true
    }

    open spec fn from_spec(e: MemoryError) -> Self {
        ExecutionError::BadMemoryAccess
    }
}

/// The 16-bit value of register `i` in a register bank laid out as two bytes
/// per register, high byte first.
pub open spec fn reg_val_at(regs: Seq<u8>, i: int) -> u16 {
    word_of(regs[2 * i], regs[2 * i + 1])
}

/// The register bank `regs` with register `i` set to `v`.
pub open spec fn spec_set_reg(regs: Seq<u8>, i: int, v: u16) -> Seq<u8> {
    regs.update(2 * i, hi_byte(v)).update(2 * i + 1, lo_byte(v))
}

/// Register round-trip: writing `v` to a valid register and reading the same
/// register back gives `v`, and every other register keeps its old value.
pub proof fn lemma_set_reg(regs: Seq<u8>, i: int, v: u16)
    requires
        regs.len() == 20,
        0 <= i < 10,
    ensures
        spec_set_reg(regs, i, v).len() == 20,
        reg_val_at(spec_set_reg(regs, i, v), i) == v,
        forall|j: int|
            0 <= j < 10 && j != i ==> reg_val_at(spec_set_reg(regs, i, v), j) == reg_val_at(
                regs,
                j,
            ),
{
    crate::memory::lemma_word_bytes(v, hi_byte(v), lo_byte(v));
}

/// Register round-trip over names: for every name in the engine's canonical
/// table and every 16-bit value `v`, setting that register to `v` and then
/// reading it gives `v` back.
pub proof fn lemma_register_round_trip(regs: Seq<u8>, name: Seq<char>, v: u16)
    requires
        regs.len() == 20,
        spec_register_index(name) is Some,
    ensures
        reg_val_at(spec_set_reg(regs, spec_register_index(name)->0 as int, v), spec_register_index(
            name,
        )->0 as int) == v,
{
    crate::isa::lemma_register_index_range(name);
    lemma_set_reg(regs, spec_register_index(name)->0 as int, v);
}

/// The memory contents after bulk-loading `prog` at offset 0: the leading
/// bytes are replaced by `prog` (truncated to the memory size), the rest keep
/// their old values.
pub open spec fn spec_load(mem: Seq<u8>, prog: Seq<u8>) -> Seq<u8> {
    Seq::new(mem.len(), |i: int| if i < prog.len() { prog[i] } else { mem[i] })
}

/// Idempotent load: loading the same byte sequence twice leaves memory exactly
/// as one load does, so a run from either state visits the same states.
pub proof fn lemma_load_idempotent(mem: Seq<u8>, prog: Seq<u8>)
    ensures
        spec_load(spec_load(mem, prog), prog) == spec_load(mem, prog),
{
    assert(spec_load(spec_load(mem, prog), prog) =~= spec_load(mem, prog));
}

/// The outcome of decoding and executing one already-fetched opcode `ins`
/// against memory `m` and register bank `regs` (where `ip`, register 0,
/// points just past the opcode byte): the new register bank and the
/// continue/halt result. Memory is never written by an opcode.
pub open spec fn spec_execute(m: Seq<u8>, regs: Seq<u8>, ins: u8) -> (Seq<u8>, Result<
    (),
    ExecutionError,
>) {
    let ip0 = reg_val_at(regs, 0) as int;
    if ins == MOV_LIT_REG {
        if ip0 + 1 < m.len() {
            let lit = word_of(m[ip0], m[ip0 + 1]);
            let regs1 = spec_set_reg(regs, 0, (ip0 + 2) as u16);
            if ip0 + 2 < m.len() {
                let rid = m[ip0 + 2] as int;
                let regs2 = spec_set_reg(regs1, 0, (ip0 + 3) as u16);
                if rid < 10 {
                    (spec_set_reg(regs2, rid, lit), Ok(()))
                } else {
                    (regs2, Err(ExecutionError::BadMemoryAccess))
                }
            } else {
                (regs1, Err(ExecutionError::BadMemoryAccess))
            }
        } else {
            (regs, Err(ExecutionError::BadMemoryAccess))
        }
    } else if ins == MOV_LIT_R1 {
        if ip0 + 1 < m.len() {
            let lit = word_of(m[ip0], m[ip0 + 1]);
            let regs1 = spec_set_reg(regs, 0, (ip0 + 2) as u16);
            (spec_set_reg(regs1, 2, lit), Ok(()))
        } else {
            (regs, Err(ExecutionError::BadMemoryAccess))
        }
    } else if ins == MOV_LIT_R2 {
        if ip0 + 1 < m.len() {
            let lit = word_of(m[ip0], m[ip0 + 1]);
            let regs1 = spec_set_reg(regs, 0, (ip0 + 2) as u16);
            (spec_set_reg(regs1, 3, lit), Ok(()))
        } else {
            (regs, Err(ExecutionError::BadMemoryAccess))
        }
    } else if ins == ADD_REG_REG {
        if ip0 < m.len() {
            let r1 = m[ip0] as int;
            let regs1 = spec_set_reg(regs, 0, (ip0 + 1) as u16);
            if ip0 + 1 < m.len() {
                let r2 = m[ip0 + 1] as int;
                let regs2 = spec_set_reg(regs1, 0, (ip0 + 2) as u16);
                if r1 < 10 && r2 < 10 {
                    let sum = ((reg_val_at(regs2, r1) + reg_val_at(regs2, r2)) % 0x10000) as u16;
                    (spec_set_reg(regs2, 1, sum), Ok(()))
                } else {
                    (regs2, Err(ExecutionError::BadMemoryAccess))
                }
            } else {
                (regs1, Err(ExecutionError::BadMemoryAccess))
            }
        } else {
            (regs, Err(ExecutionError::BadMemoryAccess))
        }
    } else if ins == END {
        (regs, Err(ExecutionError::EndOfExecution))
    } else {
        (regs, Err(ExecutionError::UnexpectedInstruction))
    }
}

/// The outcome of one full step: fetch the opcode at `ip`, advance `ip` past
/// it, then execute it; fetching outside memory halts with `BadMemoryAccess`.
pub open spec fn spec_step(m: Seq<u8>, regs: Seq<u8>) -> (Seq<u8>, Result<(), ExecutionError>) {
    let ip0 = reg_val_at(regs, 0) as int;
    if ip0 < m.len() {
        spec_execute(m, spec_set_reg(regs, 0, (ip0 + 1) as u16), m[ip0])
    } else {
        (regs, Err(ExecutionError::BadMemoryAccess))
    }
}

/// The head of the virtual machine: program memory, the register bank, and
/// the fetch-decode-execute cycle over them.
pub struct CPU {
    memory: Memory,
    registers: Memory,
}

impl CPU {
    /// The program memory contents.
    pub closed spec fn mem(&self) -> Seq<u8> {
        self.memory@
    }

    /// The register bank contents: ten 16-bit registers, two bytes each, high
    /// byte first, in the canonical order `ip, acc, r1, ..., r8`.
    pub closed spec fn regs(&self) -> Seq<u8> {
        self.registers@
    }

    /// Well-formedness: the register bank holds exactly ten two-byte slots,
    /// and memory is small enough for the 16-bit instruction pointer to
    /// address (and step past) every byte.
    pub open spec fn wf(&self) -> bool {
        self.regs().len() == 20 && self.mem().len() <= 0xFFFF
    }

    /// The 16-bit value of register `i`.
    pub open spec fn reg(&self, i: int) -> u16 {
        reg_val_at(self.regs(), i)
    }

    /// The instruction pointer.
    pub open spec fn ip(&self) -> u16 {
        self.reg(0)
    }

    /// Builds a machine with `memory` zero-initialized bytes of program
    /// memory and all ten registers zero.
    pub fn new(memory: usize) -> (c: CPU)
        requires
            memory <= 0xFFFF,
        ensures
            c.wf(),
            c.mem().len() == memory,
            forall|i: int| 0 <= i < memory ==> c.mem()[i] == 0u8,
            forall|i: int| 0 <= i < 10 ==> c.reg(i) == 0u16,
    {
        let c = CPU { memory: Memory::new(memory), registers: Memory::new(REGISTER_COUNT * 2) };
        proof {
            assert(forall|i: int| 0 <= i < 10 ==> c.reg(i) == word_of(0u8, 0u8));
        }
        c
    }

    /// Reads the register named `name`; the name must come from the canonical
    /// table, and the read then always succeeds.
    pub fn get_register(&self, name: &str) -> (r: Result<u16, MemoryError>)
        requires
            self.wf(),
            spec_register_index(name@) is Some,
        ensures
            r == Ok::<u16, MemoryError>(self.reg(spec_register_index(name@)->0 as int)),
    {
        match register_index(name) {
            Some(reg_pointer) => self.registers.get_memory_at_u16(reg_pointer * 2),
            None => {
                proof {
                    assert(false);
                }
                Err(MemoryError::OutOfBounds)
            },
        }
    }

    /// Writes `value` into the register named `name`; the name must come from
    /// the canonical table, and the write then always succeeds and changes no
    /// other register and no memory.
    pub fn set_register(&mut self, name: &str, value: u16) -> (r: Result<(), MemoryError>)
        requires
            old(self).wf(),
            spec_register_index(name@) is Some,
        ensures
            final(self).wf(),
            final(self).mem() == old(self).mem(),
            r == Ok::<(), MemoryError>(()),
            final(self).regs() == spec_set_reg(
                old(self).regs(),
                spec_register_index(name@)->0 as int,
                value,
            ),
    {
        match register_index(name) {
            Some(reg_pointer) => self.registers.set_memory_at_u16(reg_pointer * 2, value),
            None => {
                proof {
                    assert(false);
                }
                Err(MemoryError::OutOfBounds)
            },
        }
    }

    /// Fetches the byte `ip` points at and advances `ip` by exactly 1,
    /// whatever the fetched value; an `ip` outside memory fails and changes
    /// nothing.
    pub fn fetch_u8(&mut self) -> (r: Result<u8, MemoryError>)
        requires
            old(self).wf(),
        ensures
            final(self).wf(),
            final(self).mem() == old(self).mem(),
            old(self).ip() < old(self).mem().len() ==> (r == Ok::<u8, MemoryError>(
                old(self).mem()[old(self).ip() as int],
            ) && final(self).regs() == spec_set_reg(
                old(self).regs(),
                0,
                (old(self).ip() + 1) as u16,
            )),
            old(self).ip() >= old(self).mem().len() ==> (r == Err::<u8, MemoryError>(
                MemoryError::OutOfBounds,
            ) && final(self).regs() == old(self).regs()),
    {
        let next_instruction = match self.get_register("ip") {
            Ok(v) => v,
            Err(_) => {
                proof {
                    assert(false);
                }
                return Err(MemoryError::OutOfBounds);
            },
        };
        let instruction = match self.memory.get_memory_at_u8(next_instruction as usize) {
            Ok(v) => v,
            Err(e) => {
                return Err(e);
            },
        };
        match self.set_register("ip", next_instruction + 1) {
            Ok(_) => Ok(instruction),
            Err(_) => {
                proof {
                    assert(false);
                }
                Err(MemoryError::OutOfBounds)
            },
        }
    }

    /// Fetches the 16-bit word `ip` points at (high byte first) and advances
    /// `ip` by exactly 2, whatever the fetched value; a word that would cross
    /// the end of memory fails and changes nothing.
    pub fn fetch_u16(&mut self) -> (r: Result<u16, MemoryError>)
        requires
            old(self).wf(),
        ensures
            final(self).wf(),
            final(self).mem() == old(self).mem(),
            old(self).ip() + 1 < old(self).mem().len() ==> (r == Ok::<u16, MemoryError>(
                word_of(old(self).mem()[old(self).ip() as int], old(self).mem()[old(self).ip() + 1]),
            ) && final(self).regs() == spec_set_reg(
                old(self).regs(),
                0,
                (old(self).ip() + 2) as u16,
            )),
            old(self).ip() + 1 >= old(self).mem().len() ==> (r == Err::<u16, MemoryError>(
                MemoryError::OutOfBounds,
            ) && final(self).regs() == old(self).regs()),
    {
        let next_instruction = match self.get_register("ip") {
            Ok(v) => v,
            Err(_) => {
                proof {
                    assert(false);
                }
                return Err(MemoryError::OutOfBounds);
            },
        };
        let instruction = match self.memory.get_memory_at_u16(next_instruction as usize) {
            Ok(v) => v,
            Err(e) => {
                return Err(e);
            },
        };
        match self.set_register("ip", next_instruction + 2) {
            Ok(_) => Ok(instruction),
            Err(_) => {
                proof {
                    assert(false);
                }
                Err(MemoryError::OutOfBounds)
            },
        }
    }

    /// Decodes and executes one already-fetched opcode. The outcome, for
    /// every opcode and machine state, is exactly `spec_execute` applied to
    /// the old state: memory is never written, `Ok` means the run continues,
    /// and every `Err` is a halt with its reason.
    #[verifier::rlimit(60)]
    pub fn execute(&mut self, instruction: u8) -> (r: Result<(), ExecutionError>)
        requires
            old(self).wf(),
        ensures
            final(self).wf(),
            final(self).mem() == old(self).mem(),
            (final(self).regs(), r) == spec_execute(
                old(self).mem(),
                old(self).regs(),
                instruction,
            ),
    {
        proof {
            crate::isa::lemma_register_table();
        }
        if instruction == MOV_LIT_REG {
            let literal = match self.fetch_u16() {
                Ok(v) => v,
                Err(_) => {
                    return Err(ExecutionError::BadMemoryAccess);
                },
            };
            proof {
                lemma_set_reg(old(self).regs(), 0, (old(self).ip() + 2) as u16);
            }
            let reg = match self.fetch_u8() {
                Ok(v) => v,
                Err(_) => {
                    return Err(ExecutionError::BadMemoryAccess);
                },
            };
            match self.registers.set_memory_at_u16((reg as usize) * 2, literal) {
                Ok(_) => Ok(()),
                Err(_) => Err(ExecutionError::BadMemoryAccess),
            }
        } else if instruction == MOV_LIT_R1 {
            let literal = match self.fetch_u16() {
                Ok(v) => v,
                Err(_) => {
                    return Err(ExecutionError::BadMemoryAccess);
                },
            };
            match self.set_register("r1", literal) {
                Ok(_) => Ok(()),
                Err(_) => {
                    proof {
                        assert(false);
                    }
                    Err(ExecutionError::BadMemoryAccess)
                },
            }
        } else if instruction == MOV_LIT_R2 {
            let literal = match self.fetch_u16() {
                Ok(v) => v,
                Err(_) => {
                    return Err(ExecutionError::BadMemoryAccess);
                },
            };
            match self.set_register("r2", literal) {
                Ok(_) => Ok(()),
                Err(_) => {
                    proof {
                        assert(false);
                    }
                    Err(ExecutionError::BadMemoryAccess)
                },
            }
        } else if instruction == ADD_REG_REG {
            let r1 = match self.fetch_u8() {
                Ok(v) => v,
                Err(_) => {
                    return Err(ExecutionError::BadMemoryAccess);
                },
            };
            proof {
                lemma_set_reg(old(self).regs(), 0, (old(self).ip() + 1) as u16);
            }
            let r2 = match self.fetch_u8() {
                Ok(v) => v,
                Err(_) => {
                    return Err(ExecutionError::BadMemoryAccess);
                },
            };
            let register_value1 = match self.registers.get_memory_at_u16((r1 as usize) * 2) {
                Ok(v) => v,
                Err(_) => {
                    return Err(ExecutionError::BadMemoryAccess);
                },
            };
            let register_value2 = match self.registers.get_memory_at_u16((r2 as usize) * 2) {
                Ok(v) => v,
                Err(_) => {
                    return Err(ExecutionError::BadMemoryAccess);
                },
            };
            let sum = register_value1.wrapping_add(register_value2);
            match self.set_register("acc", sum) {
                Ok(_) => Ok(()),
                Err(_) => {
                    proof {
                        assert(false);
                    }
                    Err(ExecutionError::BadMemoryAccess)
                },
            }
        } else if instruction == END {
            Err(ExecutionError::EndOfExecution)
        } else {
            Err(ExecutionError::UnexpectedInstruction)
        }
    }

    /// One full machine step: fetch the opcode at `ip`, advance `ip`, then
    /// execute. Returns `true` exactly when the run continues; the new state,
    /// for every starting state, is exactly `spec_step` of the old one.
    pub fn step(&mut self) -> (r: bool)
        requires
            old(self).wf(),
        ensures
            final(self).wf(),
            final(self).mem() == old(self).mem(),
            final(self).regs() == spec_step(old(self).mem(), old(self).regs()).0,
            r == (spec_step(old(self).mem(), old(self).regs()).1 is Ok),
    {
        proof {
            lemma_set_reg(old(self).regs(), 0, (old(self).ip() + 1) as u16);
        }
        match self.fetch_u8() {
            Ok(int_code) => match self.execute(int_code) {
                Ok(_ok) => true,
                Err(_err) => false,
            },
            Err(_err) => false,
        }
    }

    /// Bulk-loads `instructions` into memory starting at offset 0, one byte
    /// at a time; bytes past the end of memory are silently dropped, later
    /// memory and all registers keep their values.
    pub fn set_instruction(&mut self, instructions: &[u8])
        requires
            old(self).wf(),
        ensures
            final(self).wf(),
            final(self).regs() == old(self).regs(),
            final(self).mem() == spec_load(old(self).mem(), instructions@),
    {
        let mut pointer: usize = 0;
        let n = instructions.len();
        while pointer < n
            invariant
                self.wf(),
                pointer <= n,
                n == instructions@.len(),
                self.regs() == old(self).regs(),
                self.mem().len() == old(self).mem().len(),
                forall|i: int|
                    0 <= i < self.mem().len() && i < pointer ==> self.mem()[i] == instructions@[i],
                forall|i: int|
                    pointer <= i < self.mem().len() ==> self.mem()[i] == old(self).mem()[i],
            decreases n - pointer,
        {
            let _ = self.memory.set_memory_at_u8(pointer, instructions[pointer]);
            pointer += 1;
        }
        proof {
            assert(self.mem() =~= spec_load(old(self).mem(), instructions@));
        }
    }
}

} // verus!
