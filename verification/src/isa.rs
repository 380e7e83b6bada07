//! The instruction-set definition shared by the execution engine and the
//! assembler's encoder: opcode byte values and the canonical engine register
//! table `["ip", "acc", "r1", ..., "r8"]`, where a register's id is its
//! position in the table and each register occupies two bytes.

use vstd::prelude::*;

verus! {

/// Opcode: move a 16-bit literal into the register named by the following id byte.
pub const MOV_LIT_REG: u8 = 0x13;

/// Opcode: move a 16-bit literal into `r1`.
pub const MOV_LIT_R1: u8 = 0x10;

/// Opcode: move a 16-bit literal into `r2`.
pub const MOV_LIT_R2: u8 = 0x11;

/// Opcode: add two registers named by the following two id bytes into `acc`.
pub const ADD_REG_REG: u8 = 0x12;

/// Opcode: end execution gracefully.
pub const END: u8 = 0x14;

/// Register id of `ip`, the instruction pointer.
pub const IP: u8 = 0;

/// Register id of `acc`, the accumulator.
pub const ACC: u8 = 1;

/// Register id of `r1`.
pub const R1: u8 = 2;

/// Register id of `r2`.
pub const R2: u8 = 3;

/// The number of registers in the engine's canonical table.
pub const REGISTER_COUNT: usize = 10;

/// The position of a register name in the engine's canonical table
/// `["ip", "acc", "r1", ..., "r8"]`, or `None` for a name outside it.
pub open spec fn spec_register_index(name: Seq<char>) -> Option<usize> {
    if name == "ip"@ {
        Some(0usize)
    } else if name == "acc"@ {
        Some(1usize)
    } else if name == "r1"@ {
        Some(2usize)
    } else if name == "r2"@ {
        Some(3usize)
    } else if name == "r3"@ {
        Some(4usize)
    } else if name == "r4"@ {
        Some(5usize)
    } else if name == "r5"@ {
        Some(6usize)
    } else if name == "r6"@ {
        Some(7usize)
    } else if name == "r7"@ {
        Some(8usize)
    } else if name == "r8"@ {
        Some(9usize)
    } else {
        None
    }
}

/// A name in the engine table always resolves to an id below `REGISTER_COUNT`.
pub proof fn lemma_register_index_range(name: Seq<char>)
    requires
        spec_register_index(name) is Some,
    ensures
        spec_register_index(name)->0 < 10,
{
}

/// The table positions of the register names the engine itself reads and
/// writes during decoding: `ip` for every fetch, `acc` for sums, `r1` and
/// `r2` for the direct move opcodes.
pub proof fn lemma_register_table()
    ensures
        spec_register_index("ip"@) == Some(0usize),
        spec_register_index("acc"@) == Some(1usize),
        spec_register_index("r1"@) == Some(2usize),
        spec_register_index("r2"@) == Some(3usize),
{
    reveal_strlit("ip");
    reveal_strlit("acc");
    reveal_strlit("r1");
    reveal_strlit("r2");
    assert("ip"@.len() == 2);
    assert("acc"@.len() == 3);
    assert("r1"@.len() == 2);
    assert("r2"@.len() == 2);
    assert("acc"@ != "ip"@);
    assert("r1"@[0] == 'r');
    assert("r2"@[0] == 'r');
    assert("ip"@[0] == 'i');
    assert("r1"@ != "ip"@);
    assert("r1"@ != "acc"@);
    assert("r2"@ != "ip"@);
    assert("r2"@ != "acc"@);
    assert("r2"@[1] == '2');
    assert("r1"@[1] == '1');
    assert("r2"@ != "r1"@);
}

/// Whether two strings hold the same characters.
pub fn str_eq(a: &str, b: &str) -> (r: bool)
    ensures
        r == (a@ == b@),
{
    let alen = a.unicode_len();
    let blen = b.unicode_len();
    if alen != blen {
        return false;
    }
    let mut i: usize = 0;
    while i < alen
        invariant
            i <= alen,
            alen == a@.len(),
            alen == b@.len(),
            forall|j: int| 0 <= j < i ==> a@[j] == b@[j],
        decreases alen - i,
    {
        if a.get_char(i) != b.get_char(i) {
            return false;
        }
        i += 1;
    }
    proof {
        assert(a@ =~= b@);
    }
    true
}

/// The position of `name` in the engine's canonical register table, or `None`
/// for a name outside it.
pub fn register_index(name: &str) -> (r: Option<usize>)
    ensures
        r == spec_register_index(name@),
{
    if str_eq(name, "ip") {
        Some(0)
    } else if str_eq(name, "acc") {
        Some(1)
    } else if str_eq(name, "r1") {
        Some(2)
    } else if str_eq(name, "r2") {
        Some(3)
    } else if str_eq(name, "r3") {
        Some(4)
    } else if str_eq(name, "r4") {
        Some(5)
    } else if str_eq(name, "r5") {
        Some(6)
    } else if str_eq(name, "r6") {
        Some(7)
    } else if str_eq(name, "r7") {
        Some(8)
    } else if str_eq(name, "r8") {
        Some(9)
    } else {
        None
    }
}

} // verus!
