//! A sparse memory over the 32-bit address space, allocated on demand in
//! slabs of [`SLAB_SIZE`] bytes.
//!
//! The memory is modelled as a partial map from addresses to bytes whose
//! domain is the set of addresses that lie in an allocated slab.

use std::collections::hash_map::Entry;
use std::collections::HashMap;
use vstd::prelude::*;
use crate::word::wrap;

verus! {

/// Number of bytes in a slab.
pub const SLAB_SIZE: u32 = 1024;

/// The first address of the slab that holds `addr`.
pub open spec fn slab_base(addr: u32) -> u32 {
    (addr - addr % SLAB_SIZE) as u32
}

/// The position of `addr` within its slab.
pub open spec fn slab_offset(addr: u32) -> u32 {
    addr % SLAB_SIZE
}

/// What a read of the byte at `addr` yields: nothing where no slab is.
pub open spec fn byte_at(mem: Map<u32, u8>, addr: u32) -> Option<u8> {
    if mem.contains_key(addr) {
        Some(mem[addr])
    } else {
        None
    }
}

/// The memory after `value` is written at `addr`: the slab of `addr` is
/// there, filled with zeros if it was not there before, and `addr` holds
/// `value`.
pub open spec fn store_byte(mem: Map<u32, u8>, addr: u32, value: u8) -> Map<u32, u8> {
    Map::new(
        |a: u32| mem.contains_key(a) || slab_base(a) == slab_base(addr),
        |a: u32|
            if a == addr {
                value
            } else if mem.contains_key(a) {
                mem[a]
            } else {
                0u8
            },
    )
}

/// The address `i` bytes after `addr`; past the last address comes address 0.
pub open spec fn addr_after(addr: u32, i: int) -> u32 {
    wrap(addr + i)
}

/// Whether each of the `n` bytes that start at `addr` lies in an allocated
/// slab.
pub open spec fn all_present(mem: Map<u32, u8>, addr: u32, n: int) -> bool {
    forall|i: int| 0 <= i < n ==> mem.contains_key(#[trigger] addr_after(addr, i))
}

/// The little-endian value of the first `n` of the four bytes that start at
/// `addr`: byte `i` counts 256^i times.
pub open spec fn le_value(mem: Map<u32, u8>, addr: u32, n: int) -> int {
    (if n > 0 {
        mem[addr] as int
    } else {
        0
    }) + (if n > 1 {
        0x100 * mem[addr_after(addr, 1)]
    } else {
        0
    }) + (if n > 2 {
        0x1_0000 * mem[addr_after(addr, 2)]
    } else {
        0
    }) + (if n > 3 {
        0x100_0000 * mem[addr_after(addr, 3)]
    } else {
        0
    })
}

/// What a read of the half-word at `addr` yields: nothing unless both bytes
/// are present.
pub open spec fn half_at(mem: Map<u32, u8>, addr: u32) -> Option<u16> {
    if all_present(mem, addr, 2) {
        Some(le_value(mem, addr, 2) as u16)
    } else {
        None
    }
}

/// What a read of the word at `addr` yields: nothing unless all four bytes
/// are present.
pub open spec fn word_at(mem: Map<u32, u8>, addr: u32) -> Option<u32> {
    if all_present(mem, addr, 4) {
        Some(le_value(mem, addr, 4) as u32)
    } else {
        None
    }
}

/// Byte `i` of `value`, counting from the low-order end.
pub open spec fn byte_of(value: u32, i: u32) -> u8 {
    ((value >> (8 * i) as u32) & 0xff) as u8
}

/// The memory after the low `n` bytes of `value` are written from `addr` on,
/// low-order byte first, for `n` up to 4.
pub open spec fn store_le(mem: Map<u32, u8>, addr: u32, value: u32, n: int) -> Map<u32, u8>
    decreases n,
{
    if n <= 0 {
        mem
    } else {
        store_byte(
            store_le(mem, addr, value, n - 1),
            addr_after(addr, n - 1),
            byte_of(value, (n - 1) as u32),
        )
    }
}

/// What a reader that takes a missing slab for zeros sees at `addr`.
pub open spec fn read_or_zero(mem: Map<u32, u8>, addr: u32) -> u8 {
    match byte_at(mem, addr) {
        Some(byte) => byte,
        None => 0,
    }
}

/// The memory after the byte writes `writes`, each an address and a value,
/// are made in order to a memory with no slab.
pub open spec fn replay(writes: Seq<(u32, u8)>) -> Map<u32, u8>
    decreases writes.len(),
{
    if writes.len() == 0 {
        Map::empty()
    } else {
        store_byte(replay(writes.drop_last()), writes.last().0, writes.last().1)
    }
}

/// A byte write is read back at its address. At any other address it leaves
/// what a zero-defaulting reader sees; in the slab of the written address
/// every other byte that was missing now reads as 0, and outside that slab
/// nothing changes at all.
pub proof fn lemma_store_byte_reads(mem: Map<u32, u8>, addr: u32, value: u8, other: u32)
    ensures
        byte_at(store_byte(mem, addr, value), addr) == Some(value),
        other != addr ==> read_or_zero(store_byte(mem, addr, value), other) == read_or_zero(
            mem,
            other,
        ),
        other != addr && slab_base(other) == slab_base(addr) && !mem.contains_key(other)
            ==> byte_at(store_byte(mem, addr, value), other) == Some(0u8),
        slab_base(other) != slab_base(addr) ==> byte_at(store_byte(mem, addr, value), other)
            == byte_at(mem, other),
{
}

/// An address that was never written reads as zero to a zero-defaulting
/// reader, whatever was written elsewhere.
pub proof fn lemma_unwritten_reads_zero(writes: Seq<(u32, u8)>, addr: u32)
    requires
        forall|i: int| 0 <= i < writes.len() ==> writes[i].0 != addr,
    ensures
        read_or_zero(replay(writes), addr) == 0,
    decreases writes.len(),
{
    if writes.len() > 0 {
        lemma_unwritten_reads_zero(writes.drop_last(), addr);
    }
}

/// A word that was written is read back: each of its bytes at its address,
/// low-order byte first, and the whole word.
pub proof fn lemma_word_round_trip(mem: Map<u32, u8>, addr: u32, value: u32)
    ensures
        forall|i: u32|
            i < 4 ==> byte_at(store_le(mem, addr, value, 4), addr_after(addr, i as int)) == Some(
                #[trigger] byte_of(value, i),
            ),
        word_at(store_le(mem, addr, value, 4), addr) == Some(value),
{
    reveal_with_fuel(store_le, 5);
    let b0 = byte_of(value, 0);
    let b1 = byte_of(value, 1);
    let b2 = byte_of(value, 2);
    let b3 = byte_of(value, 3);
    assert(b0 + 0x100 * b1 + 0x1_0000 * b2 + 0x100_0000 * b3 == value) by (bit_vector)
        requires
            b0 == byte_of(value, 0),
            b1 == byte_of(value, 1),
            b2 == byte_of(value, 2),
            b3 == byte_of(value, 3),
    ;
}

/// A half-word that was written is read back: each of its bytes at its
/// address, low-order byte first, and the whole half-word.
pub proof fn lemma_half_round_trip(mem: Map<u32, u8>, addr: u32, value: u16)
    ensures
        forall|i: u32|
            i < 2 ==> byte_at(store_le(mem, addr, value as u32, 2), addr_after(addr, i as int))
                == Some(#[trigger] byte_of(value as u32, i)),
        half_at(store_le(mem, addr, value as u32, 2), addr) == Some(value),
{
    reveal_with_fuel(store_le, 3);
    let b0 = byte_of(value as u32, 0);
    let b1 = byte_of(value as u32, 1);
    assert(b0 + 0x100 * b1 == value) by (bit_vector)
        requires
            b0 == byte_of(value as u32, 0),
            b1 == byte_of(value as u32, 1),
    ;
}

/// Splits an address into the base of its slab and its offset in the slab.
pub fn range_for(index: u32) -> (range: (u32, u32))
    ensures
        range.0 == slab_base(index),
        range.1 == slab_offset(index),
        range.0 % SLAB_SIZE == 0,
        range.1 < SLAB_SIZE,
        range.0 + range.1 == index,
{
    let diff = index % SLAB_SIZE;
    let lower_bound = index - diff;
    (lower_bound, diff)
}

/// A sparse memory. Its view is the partial map from each address in an
/// allocated slab to the byte stored there.
pub struct Memory {
    /// The allocated slabs, each keyed by its first address.
    slabs: HashMap<u32, Vec<u8>>,
}

impl View for Memory {
    type V = Map<u32, u8>;

    closed spec fn view(&self) -> Map<u32, u8> {
        Map::new(
            |addr: u32| self.slabs@.contains_key(slab_base(addr)),
            |addr: u32| self.slabs@[slab_base(addr)]@[slab_offset(addr) as int],
        )
    }
}

impl Memory {
    /// Every slab starts at a multiple of [`SLAB_SIZE`] and holds exactly
    /// [`SLAB_SIZE`] bytes.
    pub closed spec fn wf(&self) -> bool {
        forall|base: u32| #[trigger]
            self.slabs@.contains_key(base) ==> base % SLAB_SIZE == 0 && self.slabs@[base]@.len()
                == SLAB_SIZE
    }

    /// The addresses that hold a byte form whole slabs: two addresses in one
    /// slab are both present or both missing.
    pub proof fn lemma_whole_slabs(&self, a: u32, b: u32)
        requires
            slab_base(a) == slab_base(b),
        ensures
            self@.contains_key(a) == self@.contains_key(b),
    {
    }

    /// A memory with no slab allocated.
    pub fn new() -> (mem: Memory)
        ensures
            mem.wf(),
            mem@ == Map::<u32, u8>::empty(),
    {
        Memory { slabs: HashMap::new() }
    }

    /// Reads the byte at `index`, or nothing if its slab was never written to.
    pub fn get_byte(&self, index: u32) -> (byte: Option<u8>)
        requires
            self.wf(),
        ensures
            byte == byte_at(self@, index),
    {
        let (base, diff) = range_for(index);
        match self.slabs.get(&base) {
            Some(slab) => Some(slab[diff as usize]),
            None => None,
        }
    }

    /// Reads the half-word at `index`, low-order byte first, or nothing if
    /// the slab of either byte was never written to.
    pub fn get_half(&self, index: u32) -> (half: Option<u16>)
        requires
            self.wf(),
        ensures
            half == half_at(self@, index),
    {
        let mut val = 0u16;
        for i in 0..2u32
            invariant
                self.wf(),
                all_present(self@, index, i as int),
                val == le_value(self@, index, i as int),
        {
            if let Some(x) = self.get_byte(index.wrapping_add(i)) {
                let shifted = (x as u16) << (8 * i);
                assert({
                    &&& i == 0 ==> val | shifted == x
                    &&& i == 1 ==> val | shifted == val + 0x100 * x
                }) by (bit_vector)
                    requires
                        i == 0 ==> val == 0,
                        i == 1 ==> val < 0x100,
                        shifted == (x as u16) << (8 * i),
                ;
                val = val | shifted;
            } else {
                assert(!self@.contains_key(addr_after(index, i as int)));
                return None;
            }
        }
        Some(val)
    }

    /// Reads the word at `index`, low-order byte first, or nothing if the
    /// slab of any of its bytes was never written to.
    pub fn get_word(&self, index: u32) -> (word: Option<u32>)
        requires
            self.wf(),
        ensures
            word == word_at(self@, index),
    {
        let mut val = 0u32;
        for i in 0..4u32
            invariant
                self.wf(),
                all_present(self@, index, i as int),
                val == le_value(self@, index, i as int),
        {
            if let Some(x) = self.get_byte(index.wrapping_add(i)) {
                let shifted = (x as u32) << (8 * i);
                assert({
                    &&& i == 0 ==> val | shifted == x
                    &&& i == 1 ==> val | shifted == val + 0x100 * x
                    &&& i == 2 ==> val | shifted == val + 0x1_0000 * x
                    &&& i == 3 ==> val | shifted == val + 0x100_0000 * x
                }) by (bit_vector)
                    requires
                        i == 0 ==> val == 0,
                        i == 1 ==> val < 0x100,
                        i == 2 ==> val < 0x1_0000,
                        i == 3 ==> val < 0x100_0000,
                        shifted == (x as u32) << (8 * i),
                ;
                val = val | shifted;
            } else {
                assert(!self@.contains_key(addr_after(index, i as int)));
                return None;
            }
        }
        Some(val)
    }

    /// Writes the byte at `index`, allocating its slab on first touch.
    pub fn set_byte(&mut self, index: u32, value: u8)
        requires
            old(self).wf(),
        ensures
            final(self).wf(),
            final(self)@ == store_byte(old(self)@, index, value),
    {
        let (base, diff) = range_for(index);
        match self.slabs.entry(base) {
            Entry::Occupied(entry) => {
                let slab = entry.into_mut();
                slab[diff as usize] = value;
            },
            Entry::Vacant(entry) => {
                let slab = entry.insert(vec![0u8; SLAB_SIZE as usize]);
                slab[diff as usize] = value;
            },
        }
    }

    /// Writes the half-word at `index`, low-order byte first.
    pub fn set_half(&mut self, index: u32, value: u16)
        requires
            old(self).wf(),
        ensures
            final(self).wf(),
            final(self)@ == store_le(old(self)@, index, value as u32, 2),
            final(self)@ == store_byte(
                store_byte(old(self)@, index, byte_of(value as u32, 0)),
                addr_after(index, 1),
                byte_of(value as u32, 1),
            ),
    {
        let wide = value as u32;
        for i in 0..2u32
            invariant
                self.wf(),
                wide == value,
                self@ == store_le(old(self)@, index, wide, i as int),
        {
            let shifted = wide >> (8 * i);
            assert(shifted & 0xff < 0x100) by (bit_vector);
            let byte = (shifted & 0xff) as u8;
            self.set_byte(index.wrapping_add(i), byte);
        }
        proof {
            reveal_with_fuel(store_le, 3);
        }
    }

    /// Writes the word at `index`, low-order byte first.
    pub fn set_word(&mut self, index: u32, value: u32)
        requires
            old(self).wf(),
        ensures
            final(self).wf(),
            final(self)@ == store_le(old(self)@, index, value, 4),
            final(self)@ == store_byte(
                store_byte(
                    store_byte(
                        store_byte(old(self)@, index, byte_of(value, 0)),
                        addr_after(index, 1),
                        byte_of(value, 1),
                    ),
                    addr_after(index, 2),
                    byte_of(value, 2),
                ),
                addr_after(index, 3),
                byte_of(value, 3),
            ),
    {
        for i in 0..4u32
            invariant
                self.wf(),
                self@ == store_le(old(self)@, index, value, i as int),
        {
            let shifted = value >> (8 * i);
            assert(shifted & 0xff < 0x100) by (bit_vector);
            let byte = (shifted & 0xff) as u8;
            self.set_byte(index.wrapping_add(i), byte);
        }
        proof {
            reveal_with_fuel(store_le, 5);
        }
    }
}

} // verus!
