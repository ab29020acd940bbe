//! The register file and the instructions that act on it.
//!
//! The register file is modelled as a sequence of 33 words: slots 0 to 31 are
//! the general registers and slot 32 is the program counter. Every instruction
//! is a transition of that sequence, stated with [`read_reg`] and
//! [`write_reg`], which carry the rule that register 0 is hard-wired to zero.

use vstd::prelude::*;
use crate::shift::{
    lemma_shift_masking, lemma_signed_shift_right, lemma_upper_immediate, shift_amount,
    shift_right_arithmetic,
};
use crate::word::{
    lemma_add_then_add_negated, lemma_cast_to_signed, lemma_cast_to_unsigned, negated, signed,
    unsigned_signed_add, wrap,
};

verus! {

/// Index of a slot of the register file.
pub type Register = usize;

/// The slot that holds the program counter.
pub const PC: Register = 32;

/// What reading slot `reg` of `regs` yields: register 0 reads as 0.
pub open spec fn read_reg(regs: Seq<u32>, reg: int) -> u32 {
    if reg == 0 {
        0
    } else {
        regs[reg]
    }
}

/// The register file after writing `val` to slot `reg`: a write to register 0
/// changes nothing.
pub open spec fn write_reg(regs: Seq<u32>, reg: int, val: u32) -> Seq<u32> {
    if reg == 0 {
        regs
    } else {
        regs.update(reg, val)
    }
}

/// The register file after a branch whose condition came out as `taken`: the
/// program counter moves by the signed offset `imm`, or nothing changes.
pub open spec fn branch(regs: Seq<u32>, taken: bool, imm: u32) -> Seq<u32> {
    if taken {
        write_reg(regs, PC as int, wrap(regs[PC as int] + signed(imm)))
    } else {
        regs
    }
}

/// 1 if `flag` holds, else 0.
pub open spec fn flag_word(flag: bool) -> u32 {
    if flag {
        1
    } else {
        0
    }
}

/// Register 0 is hard-wired to zero. In a register file whose slot 0 holds 0,
/// a read of register 0 gives 0 and a read of any slot gives what it holds; a
/// write to register 0 changes nothing; and after any write and after any
/// branch, slot 0 still holds 0.
pub proof fn lemma_zero_register(regs: Seq<u32>, reg: int, val: u32, taken: bool, imm: u32)
    requires
        regs.len() == 33,
        regs[0] == 0,
        0 <= reg <= PC,
    ensures
        read_reg(regs, 0) == 0,
        read_reg(regs, reg) == regs[reg],
        write_reg(regs, 0, val) == regs,
        write_reg(regs, reg, val).len() == 33,
        write_reg(regs, reg, val)[0] == 0,
        branch(regs, taken, imm).len() == 33,
        branch(regs, taken, imm)[0] == 0,
{
}

/// A write is seen by the next read of the same slot, unless the slot is
/// register 0, and by no read of another slot.
pub proof fn lemma_write_then_read(regs: Seq<u32>, reg: int, val: u32, other: int)
    requires
        regs.len() == 33,
        0 <= reg <= PC,
        0 <= other <= PC,
    ensures
        read_reg(write_reg(regs, reg, val), reg) == (if reg == 0 {
            0
        } else {
            val
        }),
        other != reg ==> read_reg(write_reg(regs, reg, val), other) == read_reg(regs, other),
{
}

/// ADDI of an immediate into a register, followed by ADDI of the negated
/// immediate into the same register, restores the register file.
pub proof fn lemma_addi_then_inverse(regs: Seq<u32>, rd: int, imm: u32)
    requires
        regs.len() == 33,
        0 <= rd <= PC,
    ensures
        ({
            let there = write_reg(regs, rd, wrap(signed(read_reg(regs, rd)) + signed(imm)));
            let back = write_reg(
                there,
                rd,
                wrap(signed(read_reg(there, rd)) + signed(negated(imm))),
            );
            back == regs
        }),
{
    lemma_add_then_add_negated(read_reg(regs, rd), imm);
}

/// The state of one hart: 32 general registers and the program counter. Its
/// view is the sequence of the 33 slots.
pub struct Processor {
    /// Slots 0 to 31 are the general registers, slot 32 is the program
    /// counter. Slot 0 is never written.
    registers: [u32; 33],
}

impl View for Processor {
    type V = Seq<u32>;

    closed spec fn view(&self) -> Seq<u32> {
        self.registers@
    }
}

impl Processor {
    /// Slot 0 holds 0 at all times.
    #[verifier::type_invariant]
    spec fn slot_zero_is_zero(&self) -> bool {
        self.registers@[0] == 0
    }

    /// What holds of every processor: its register file has 33 slots, and
    /// slot 0 holds 0.
    pub open spec fn wf(&self) -> bool {
        &&& self@.len() == 33
        &&& self@[0] == 0
    }

    /// What reading `reg` yields in this state.
    pub open spec fn reg(&self, reg: Register) -> u32 {
        read_reg(self@, reg as int)
    }

    /// The program counter of this state.
    pub open spec fn pc(&self) -> u32 {
        self@[PC as int]
    }

    /// A processor with every register and the program counter at 0.
    pub fn new() -> (cpu: Processor)
        ensures
            cpu@ == Seq::new(33, |i: int| 0u32),
            cpu.wf(),
    {
        Processor { registers: [0; 33] }
    }

    /// Reads a slot; register 0 reads as 0.
    pub fn get(&self, reg: Register) -> (val: u32)
        requires
            reg <= PC,
        ensures
            val == self.reg(reg),
            val == self@[reg as int],
            self.wf(),
    {
        proof {
            use_type_invariant(self);
        }
        if reg == 0 {
            0
        } else {
            self.registers[reg]
        }
    }

    /// Writes a slot; a write to register 0 is dropped.
    pub fn set(&mut self, reg: Register, val: u32)
        requires
            reg <= PC,
        ensures
            final(self)@ == write_reg(old(self)@, reg as int, val),
            final(self).wf(),
    {
        proof {
            use_type_invariant(&*self);
        }
        if reg != 0 {
            self.registers[reg] = val;
        }
    }

    /// ADDI: the signed sum of `rs1` and `imm`, modulo 2^32.
    pub fn addi(&mut self, rd: Register, rs1: Register, imm: u32)
        requires
            rd <= PC,
            rs1 <= PC,
        ensures
            final(self)@ == write_reg(
                old(self)@,
                rd as int,
                wrap(signed(old(self).reg(rs1)) + signed(imm)),
            ),
            final(self).wf(),
    {
        let signed_imm = imm as i32;
        let rs1_val = self.get(rs1) as i32;
        let result = rs1_val.wrapping_add(signed_imm);
        proof {
            lemma_cast_to_signed(imm);
            lemma_cast_to_signed(self.reg(rs1));
            lemma_cast_to_unsigned(result);
        }
        self.set(rd, result as u32);
    }

    /// SLTI: 1 if `rs1` is less than `imm`, both read as signed, else 0.
    pub fn slti(&mut self, rd: Register, rs1: Register, imm: u32)
        requires
            rd <= PC,
            rs1 <= PC,
        ensures
            final(self)@ == write_reg(
                old(self)@,
                rd as int,
                flag_word(signed(old(self).reg(rs1)) < signed(imm)),
            ),
            final(self).wf(),
    {
        let signed_imm = imm as i32;
        let rs1_val = self.get(rs1) as i32;
        proof {
            lemma_cast_to_signed(imm);
            lemma_cast_to_signed(self.reg(rs1));
        }
        self.set(rd, if rs1_val < signed_imm { 1 } else { 0 })
    }

    /// SLTIU: 1 if `rs1` is less than `imm`, both read as unsigned, else 0.
    /// With `imm == 1` this tells whether `rs1` is zero.
    pub fn sltiu(&mut self, rd: Register, rs1: Register, imm: u32)
        requires
            rd <= PC,
            rs1 <= PC,
        ensures
            final(self)@ == write_reg(
                old(self)@,
                rd as int,
                flag_word(old(self).reg(rs1) < imm),
            ),
            imm == 1 ==> final(self)@ == write_reg(
                old(self)@,
                rd as int,
                flag_word(old(self).reg(rs1) == 0),
            ),
            final(self).wf(),
    {
        let rs1_val: u32 = self.get(rs1);
        self.set(rd, if rs1_val < imm { 1 } else { 0 })
    }

    /// ANDI: the bitwise AND of `rs1` and `imm`.
    pub fn andi(&mut self, rd: Register, rs1: Register, imm: u32)
        requires
            rd <= PC,
            rs1 <= PC,
        ensures
            final(self)@ == write_reg(old(self)@, rd as int, old(self).reg(rs1) & imm),
            final(self).wf(),
    {
        let rs1_val = self.get(rs1);
        self.set(rd, rs1_val & imm);
    }

    /// ORI: the bitwise OR of `rs1` and `imm`.
    pub fn ori(&mut self, rd: Register, rs1: Register, imm: u32)
        requires
            rd <= PC,
            rs1 <= PC,
        ensures
            final(self)@ == write_reg(old(self)@, rd as int, old(self).reg(rs1) | imm),
            final(self).wf(),
    {
        let rs1_val = self.get(rs1);
        self.set(rd, rs1_val | imm);
    }

    /// XORI: the bitwise XOR of `rs1` and `imm`.
    pub fn xori(&mut self, rd: Register, rs1: Register, imm: u32)
        requires
            rd <= PC,
            rs1 <= PC,
        ensures
            final(self)@ == write_reg(old(self)@, rd as int, old(self).reg(rs1) ^ imm),
            final(self).wf(),
    {
        let rs1_val = self.get(rs1);
        self.set(rd, rs1_val ^ imm);
    }

    /// SLLI: `rs1` shifted left by `imm` places; the bits shifted out are lost.
    pub fn slli(&mut self, rd: Register, rs1: Register, imm: u32)
        requires
            rd <= PC,
            rs1 <= PC,
            imm < 32,
        ensures
            final(self)@ == write_reg(old(self)@, rd as int, old(self).reg(rs1) << imm),
            final(self).wf(),
    {
        let rs1_val = self.get(rs1);
        self.set(rd, rs1_val << imm)
    }

    /// SRLI: `rs1` shifted right by `imm` places, with zeros coming in.
    pub fn srli(&mut self, rd: Register, rs1: Register, imm: u32)
        requires
            rd <= PC,
            rs1 <= PC,
            imm < 32,
        ensures
            final(self)@ == write_reg(old(self)@, rd as int, old(self).reg(rs1) >> imm),
            final(self).wf(),
    {
        let rs1_val = self.get(rs1);
        self.set(rd, rs1_val >> imm)
    }

    /// SRAI: `rs1` shifted right by `imm` places, with copies of its sign bit
    /// coming in.
    pub fn srai(&mut self, rd: Register, rs1: Register, imm: u32)
        requires
            rd <= PC,
            rs1 <= PC,
            imm < 32,
        ensures
            final(self)@ == write_reg(
                old(self)@,
                rd as int,
                shift_right_arithmetic(old(self).reg(rs1), imm),
            ),
            final(self).wf(),
    {
        let rs1_val = self.get(rs1) as i32;
        proof {
            lemma_signed_shift_right(self.reg(rs1), imm);
        }
        self.set(rd, (rs1_val >> imm) as u32)
    }

    /// LUI: `imm` moved up by 12 places; the low 12 bits of the result are 0.
    pub fn lui(&mut self, rd: Register, imm: u32)
        requires
            rd <= PC,
        ensures
            final(self)@ == write_reg(old(self)@, rd as int, imm << 12),
            final(self).reg(rd) & 0xfff == 0,
            final(self).wf(),
    {
        proof {
            lemma_upper_immediate(imm);
            assert(0u32 & 0xfff == 0) by (bit_vector);
        }
        self.set(rd, imm << 12)
    }

    /// AUIPC: `imm` moved up by 12 places, plus the program counter, modulo
    /// 2^32.
    pub fn auipc(&mut self, rd: Register, imm: u32)
        requires
            rd <= PC,
        ensures
            final(self)@ == write_reg(
                old(self)@,
                rd as int,
                wrap((imm << 12) + old(self).pc()),
            ),
            final(self).wf(),
    {
        let result = (imm << 12).wrapping_add(self.get(PC));
        self.set(rd, result)
    }

    /// ADD: the sum of `rs1` and `rs2`, modulo 2^32.
    pub fn add(&mut self, rd: Register, rs1: Register, rs2: Register)
        requires
            rd <= PC,
            rs1 <= PC,
            rs2 <= PC,
        ensures
            final(self)@ == write_reg(
                old(self)@,
                rd as int,
                wrap(old(self).reg(rs1) + old(self).reg(rs2)),
            ),
            final(self).wf(),
    {
        let result = self.get(rs1).wrapping_add(self.get(rs2));
        self.set(rd, result)
    }

    /// SUB: `rs1` minus `rs2`, modulo 2^32.
    pub fn sub(&mut self, rd: Register, rs1: Register, rs2: Register)
        requires
            rd <= PC,
            rs1 <= PC,
            rs2 <= PC,
        ensures
            final(self)@ == write_reg(
                old(self)@,
                rd as int,
                wrap(old(self).reg(rs1) - old(self).reg(rs2)),
            ),
            final(self).wf(),
    {
        let result = self.get(rs1).wrapping_sub(self.get(rs2));
        self.set(rd, result)
    }

    /// SLT: 1 if `rs1` is less than `rs2`, both read as signed, else 0.
    pub fn slt(&mut self, rd: Register, rs1: Register, rs2: Register)
        requires
            rd <= PC,
            rs1 <= PC,
            rs2 <= PC,
        ensures
            final(self)@ == write_reg(
                old(self)@,
                rd as int,
                flag_word(signed(old(self).reg(rs1)) < signed(old(self).reg(rs2))),
            ),
            final(self).wf(),
    {
        let rs1_val = self.get(rs1) as i32;
        let rs2_val = self.get(rs2) as i32;
        proof {
            lemma_cast_to_signed(self.reg(rs1));
            lemma_cast_to_signed(self.reg(rs2));
        }
        self.set(rd, if rs1_val < rs2_val { 1 } else { 0 })
    }

    /// SLTU: 1 if `rs1` is less than `rs2`, both read as unsigned, else 0.
    pub fn sltu(&mut self, rd: Register, rs1: Register, rs2: Register)
        requires
            rd <= PC,
            rs1 <= PC,
            rs2 <= PC,
        ensures
            final(self)@ == write_reg(
                old(self)@,
                rd as int,
                flag_word(old(self).reg(rs1) < old(self).reg(rs2)),
            ),
            final(self).wf(),
    {
        let result: u32 = if self.get(rs1) < self.get(rs2) { 1 } else { 0 };
        self.set(rd, result)
    }

    /// AND: the bitwise AND of `rs1` and `rs2`.
    pub fn and(&mut self, rd: Register, rs1: Register, rs2: Register)
        requires
            rd <= PC,
            rs1 <= PC,
            rs2 <= PC,
        ensures
            final(self)@ == write_reg(
                old(self)@,
                rd as int,
                old(self).reg(rs1) & old(self).reg(rs2),
            ),
            final(self).wf(),
    {
        let result = self.get(rs1) & self.get(rs2);
        self.set(rd, result)
    }

    /// OR: the bitwise OR of `rs1` and `rs2`.
    pub fn or(&mut self, rd: Register, rs1: Register, rs2: Register)
        requires
            rd <= PC,
            rs1 <= PC,
            rs2 <= PC,
        ensures
            final(self)@ == write_reg(
                old(self)@,
                rd as int,
                old(self).reg(rs1) | old(self).reg(rs2),
            ),
            final(self).wf(),
    {
        let result = self.get(rs1) | self.get(rs2);
        self.set(rd, result)
    }

    /// XOR: the bitwise XOR of `rs1` and `rs2`.
    pub fn xor(&mut self, rd: Register, rs1: Register, rs2: Register)
        requires
            rd <= PC,
            rs1 <= PC,
            rs2 <= PC,
        ensures
            final(self)@ == write_reg(
                old(self)@,
                rd as int,
                old(self).reg(rs1) ^ old(self).reg(rs2),
            ),
            final(self).wf(),
    {
        let result = self.get(rs1) ^ self.get(rs2);
        self.set(rd, result)
    }

    /// SLL: `rs1` shifted left by the low five bits of `rs2`.
    pub fn sll(&mut self, rd: Register, rs1: Register, rs2: Register)
        requires
            rd <= PC,
            rs1 <= PC,
            rs2 <= PC,
        ensures
            final(self)@ == write_reg(
                old(self)@,
                rd as int,
                old(self).reg(rs1) << shift_amount(old(self).reg(rs2)),
            ),
            final(self).wf(),
    {
        proof {
            lemma_shift_masking(self.reg(rs1), self.reg(rs2));
        }
        let result = self.get(rs1) << (self.get(rs2) & 0b011111);
        self.set(rd, result)
    }

    /// SRL: `rs1` shifted right by the low five bits of `rs2`, with zeros
    /// coming in.
    pub fn srl(&mut self, rd: Register, rs1: Register, rs2: Register)
        requires
            rd <= PC,
            rs1 <= PC,
            rs2 <= PC,
        ensures
            final(self)@ == write_reg(
                old(self)@,
                rd as int,
                old(self).reg(rs1) >> shift_amount(old(self).reg(rs2)),
            ),
            final(self).wf(),
    {
        proof {
            lemma_shift_masking(self.reg(rs1), self.reg(rs2));
        }
        let result = self.get(rs1) >> (self.get(rs2) & 0b011111);
        self.set(rd, result)
    }

    /// SRA: `rs1` shifted right by the low five bits of `rs2`, with copies of
    /// its sign bit coming in.
    pub fn sra(&mut self, rd: Register, rs1: Register, rs2: Register)
        requires
            rd <= PC,
            rs1 <= PC,
            rs2 <= PC,
        ensures
            final(self)@ == write_reg(
                old(self)@,
                rd as int,
                shift_right_arithmetic(old(self).reg(rs1), shift_amount(old(self).reg(rs2))),
            ),
            final(self).wf(),
    {
        proof {
            lemma_shift_masking(self.reg(rs1), self.reg(rs2));
            lemma_signed_shift_right(self.reg(rs1), shift_amount(self.reg(rs2)));
        }
        let result = ((self.get(rs1) as i32) >> (self.get(rs2) & 0b011111)) as u32;
        self.set(rd, result)
    }

    /// JAL: `rd` takes the address after this instruction, the program counter
    /// plus 4, and the program counter moves by the signed offset `imm`.
    pub fn jal(&mut self, rd: Register, imm: u32)
        requires
            rd <= PC,
        ensures
            final(self)@ == write_reg(
                write_reg(old(self)@, rd as int, wrap(old(self).pc() + 4)),
                PC as int,
                wrap(old(self).pc() + signed(imm)),
            ),
            final(self).wf(),
    {
        let current_pc = self.get(PC);
        let following_jump = current_pc.wrapping_add(4);
        proof {
            lemma_cast_to_signed(imm);
        }
        let jump_to = unsigned_signed_add(current_pc, imm as i32);
        self.set(rd, following_jump);
        self.set(PC, jump_to)
    }

    /// JALR: `rd` takes the address after this instruction, the program
    /// counter plus 4, and the program counter becomes `rs1` moved by the
    /// signed offset `imm`. `rs1` is read before `rd` is written.
    pub fn jalr(&mut self, rd: Register, rs1: Register, imm: u32)
        requires
            rd <= PC,
            rs1 <= PC,
        ensures
            final(self)@ == write_reg(
                write_reg(old(self)@, rd as int, wrap(old(self).pc() + 4)),
                PC as int,
                wrap(old(self).reg(rs1) + signed(imm)),
            ),
            final(self).wf(),
    {
        let following_jump = self.get(PC).wrapping_add(4);
        proof {
            lemma_cast_to_signed(imm);
        }
        let jump_to = unsigned_signed_add(self.get(rs1), imm as i32);
        self.set(rd, following_jump);
        self.set(PC, jump_to)
    }

    /// BEQ: branches if `rs1` equals `rs2`.
    pub fn beq(&mut self, rs1: Register, rs2: Register, imm: u32)
        requires
            rs1 <= PC,
            rs2 <= PC,
        ensures
            final(self)@ == branch(old(self)@, old(self).reg(rs1) == old(self).reg(rs2), imm),
            final(self).wf(),
    {
        if self.get(rs1) == self.get(rs2) {
            self.take_branch(imm)
        }
    }

    /// BNE: branches if `rs1` differs from `rs2`.
    pub fn bne(&mut self, rs1: Register, rs2: Register, imm: u32)
        requires
            rs1 <= PC,
            rs2 <= PC,
        ensures
            final(self)@ == branch(old(self)@, old(self).reg(rs1) != old(self).reg(rs2), imm),
            final(self).wf(),
    {
        if self.get(rs1) != self.get(rs2) {
            self.take_branch(imm)
        }
    }

    /// BLT: branches if `rs1` is less than `rs2`, both read as signed.
    pub fn blt(&mut self, rs1: Register, rs2: Register, imm: u32)
        requires
            rs1 <= PC,
            rs2 <= PC,
        ensures
            final(self)@ == branch(
                old(self)@,
                signed(old(self).reg(rs1)) < signed(old(self).reg(rs2)),
                imm,
            ),
            final(self).wf(),
    {
        proof {
            lemma_cast_to_signed(self.reg(rs1));
            lemma_cast_to_signed(self.reg(rs2));
        }
        if (self.get(rs1) as i32) < (self.get(rs2) as i32) {
            self.take_branch(imm)
        }
    }

    /// BLTU: branches if `rs1` is less than `rs2`, both read as unsigned.
    pub fn bltu(&mut self, rs1: Register, rs2: Register, imm: u32)
        requires
            rs1 <= PC,
            rs2 <= PC,
        ensures
            final(self)@ == branch(old(self)@, old(self).reg(rs1) < old(self).reg(rs2), imm),
            final(self).wf(),
    {
        if self.get(rs1) < self.get(rs2) {
            self.take_branch(imm)
        }
    }

    /// BGE: branches if `rs1` is at least `rs2`, both read as signed.
    pub fn bge(&mut self, rs1: Register, rs2: Register, imm: u32)
        requires
            rs1 <= PC,
            rs2 <= PC,
        ensures
            final(self)@ == branch(
                old(self)@,
                signed(old(self).reg(rs1)) >= signed(old(self).reg(rs2)),
                imm,
            ),
            final(self).wf(),
    {
        proof {
            lemma_cast_to_signed(self.reg(rs1));
            lemma_cast_to_signed(self.reg(rs2));
        }
        if (self.get(rs1) as i32) >= (self.get(rs2) as i32) {
            self.take_branch(imm)
        }
    }

    /// BGEU: branches if `rs1` is at least `rs2`, both read as unsigned.
    pub fn bgeu(&mut self, rs1: Register, rs2: Register, imm: u32)
        requires
            rs1 <= PC,
            rs2 <= PC,
        ensures
            final(self)@ == branch(old(self)@, old(self).reg(rs1) >= old(self).reg(rs2), imm),
            final(self).wf(),
    {
        if self.get(rs1) >= self.get(rs2) {
            self.take_branch(imm)
        }
    }

    /// Moves the program counter by the signed offset `imm`.
    fn take_branch(&mut self, imm: u32)
        ensures
            final(self)@ == branch(old(self)@, true, imm),
            final(self).wf(),
    {
        proof {
            lemma_cast_to_signed(imm);
        }
        let jump_to = unsigned_signed_add(self.get(PC), imm as i32);
        self.set(PC, jump_to)
    }
}

} // verus!
