//! A fixed-size, byte-addressable buffer with bounds-checked 8-bit and 16-bit
//! access. 16-bit values are stored as two consecutive bytes, high byte first;
//! the register file and the execution engine both rely on that order.

use vstd::pervasive::VecAdditionalExecFns;
use vstd::prelude::*;

verus! {

/// Error returned by an access whose offset lies outside the buffer.
#[derive(Debug, PartialEq, Eq, Structural, Clone, Copy)]
pub enum MemoryError {
    OutOfBounds,
}

/// The 16-bit word formed by a high byte and a low byte.
pub open spec fn word_of(hi: u8, lo: u8) -> u16 {
    (hi * 256 + lo) as u16
}

/// The high byte of a 16-bit word.
pub open spec fn hi_byte(w: u16) -> u8 {
    (w / 256) as u8
}

/// The low byte of a 16-bit word.
pub open spec fn lo_byte(w: u16) -> u8 {
    (w % 256) as u8
}

/// Splitting a word into its two bytes and recombining them gives the word
/// back, and combining two bytes and splitting the result gives the bytes
/// back: a 16-bit slot made of two byte cells loses nothing.
pub proof fn lemma_word_bytes(w: u16, hi: u8, lo: u8)
    ensures
        word_of(hi_byte(w), lo_byte(w)) == w,
        hi_byte(word_of(hi, lo)) == hi,
        lo_byte(word_of(hi, lo)) == lo,
{
}

/// A fixed-length sequence of bytes, allocated once and never resized.
pub struct Memory {
    data: Vec<u8>,
}

impl View for Memory {
    type V = Seq<u8>;

    closed spec fn view(&self) -> Seq<u8> {
        self.data@
    }
}

impl Memory {
    /// Allocates `size` zero-initialized bytes.
    pub fn new(size: usize) -> (m: Memory)
        ensures
            m@.len() == size,
            forall|i: int| 0 <= i < size ==> m@[i] == 0u8,
    {
        let mut data: Vec<u8> = Vec::new();
        while data.len() < size
            invariant
                data.len() <= size,
                forall|i: int| 0 <= i < data.len() ==> data@[i] == 0u8,
            decreases size - data.len(),
        {
            data.push(0u8);
        }
        Memory { data }
    }

    /// Reads the byte at `offset`; fails exactly when `offset` is at or past
    /// the end of the buffer.
    pub fn get_memory_at_u8(&self, offset: usize) -> (r: Result<u8, MemoryError>)
        ensures
            offset < self@.len() ==> r == Ok::<u8, MemoryError>(self@[offset as int]),
            offset >= self@.len() ==> r == Err::<u8, MemoryError>(MemoryError::OutOfBounds),
    {
        if offset < self.data.len() {
            Ok(self.data[offset])
        } else {
            Err(MemoryError::OutOfBounds)
        }
    }

    /// Writes `value` at `offset`; fails exactly when `offset` is at or past
    /// the end of the buffer, leaving the buffer unchanged.
    pub fn set_memory_at_u8(&mut self, offset: usize, value: u8) -> (r: Result<(), MemoryError>)
        ensures
            offset < old(self)@.len() ==> (r == Ok::<(), MemoryError>(()) && final(self)@
                == old(self)@.update(offset as int, value)),
            offset >= old(self)@.len() ==> (r == Err::<(), MemoryError>(MemoryError::OutOfBounds)
                && final(self)@ == old(self)@),
    {
        if offset < self.data.len() {
            self.data.set(offset, value);
            Ok(())
        } else {
            Err(MemoryError::OutOfBounds)
        }
    }

    /// Reads the 16-bit word stored at `offset` and `offset + 1`, high byte
    /// first; fails exactly when `offset + 1` is at or past the end.
    pub fn get_memory_at_u16(&self, offset: usize) -> (r: Result<u16, MemoryError>)
        ensures
            offset + 1 < self@.len() ==> r == Ok::<u16, MemoryError>(
                word_of(self@[offset as int], self@[offset + 1]),
            ),
            offset + 1 >= self@.len() ==> r == Err::<u16, MemoryError>(MemoryError::OutOfBounds),
    {
        let len = self.data.len();
        if len >= 2 && offset < len - 1 {
            let hi = self.data[offset];
            let lo = self.data[offset + 1];
            Ok((hi as u16) * 256 + (lo as u16))
        } else {
            Err(MemoryError::OutOfBounds)
        }
    }

    /// Writes the 16-bit word `value` at `offset` and `offset + 1`, high byte
    /// first; fails exactly when `offset + 1` is at or past the end, leaving
    /// the buffer unchanged.
    pub fn set_memory_at_u16(&mut self, offset: usize, value: u16) -> (r: Result<(), MemoryError>)
        ensures
            offset + 1 < old(self)@.len() ==> (r == Ok::<(), MemoryError>(()) && final(self)@
                == old(self)@.update(offset as int, hi_byte(value)).update(
                offset + 1,
                lo_byte(value),
            )),
            offset + 1 >= old(self)@.len() ==> (r == Err::<(), MemoryError>(
                MemoryError::OutOfBounds,
            ) && final(self)@ == old(self)@),
    {
        let len = self.data.len();
        if len >= 2 && offset < len - 1 {
            let hi = (value / 256) as u8;
            let lo = (value % 256) as u8;
            self.data.set(offset, hi);
            self.data.set(offset + 1, lo);
            Ok(())
        } else {
            Err(MemoryError::OutOfBounds)
        }
    }

    /// The number of bytes the buffer holds.
    pub fn len(&self) -> (n: usize)
        ensures
            n == self@.len(),
    {
        self.data.len()
    }
}

} // verus!
