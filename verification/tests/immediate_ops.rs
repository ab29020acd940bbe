use riscv_sim::processor::{Processor, Register};
use riscv_sim::word::sign_extend;

type ImmInstruction = fn(&mut Processor, Register, Register, u32);

fn test_imm_op(_test_num: u32, inst: ImmInstruction, result: u32, val1: u32, imm: u32) {
    let mut cpu = Processor::new();
    let rd: Register = 1;
    let rs1: Register = 3;
    cpu.set(rs1, val1);
    inst(&mut cpu, rd, rs1, sign_extend(imm));
    assert_eq!(result, cpu.get(rd));
}

fn test_imm_src1_eq_dest(_test_num: u32, inst: ImmInstruction, result: u32, val1: u32, imm: u32) {
    let mut cpu = Processor::new();
    let rd: Register = 1;
    let rs1: Register = 1;
    cpu.set(rs1, val1);
    inst(&mut cpu, rd, rs1, sign_extend(imm));
    assert_eq!(result, cpu.get(rd));
}

fn test_imm_zerosrc1(_test_num: u32, inst: ImmInstruction, result: u32, imm: u32) {
    let mut cpu = Processor::new();
    let rd: Register = 1;
    let rs1: Register = 0;
    inst(&mut cpu, rd, rs1, sign_extend(imm));
    assert_eq!(result, cpu.get(rd));
}

fn test_imm_zerodest(_test_num: u32, inst: ImmInstruction, _val1: u32, imm: u32) {
    let mut cpu = Processor::new();
    let rd: Register = 0;
    let rs1: Register = 1;
    inst(&mut cpu, rd, rs1, imm);
    assert_eq!(0, cpu.get(rd));
}

#[test]
fn addi() {
    test_imm_op(2, Processor::addi, 0x00000000, 0x00000000, 0x000);
    test_imm_op(3, Processor::addi, 0x00000002, 0x00000001, 0x001);
    test_imm_op(4, Processor::addi, 0x0000000a, 0x00000003, 0x007);

    test_imm_op(5, Processor::addi, 0xfffff800, 0x00000000, 0x800);
    test_imm_op(6, Processor::addi, 0x80000000, 0x80000000, 0x000);
    test_imm_op(7, Processor::addi, 0x7ffff800, 0x80000000, 0x800);

    test_imm_op(8, Processor::addi, 0x000007ff, 0x00000000, 0x7ff);
    test_imm_op(9, Processor::addi, 0x7fffffff, 0x7fffffff, 0x000);
    test_imm_op(10, Processor::addi, 0x800007fe, 0x7fffffff, 0x7ff);

    test_imm_op(11, Processor::addi, 0x800007ff, 0x80000000, 0x7ff);
    test_imm_op(12, Processor::addi, 0x7ffff7ff, 0x7fffffff, 0x800);

    test_imm_op(13, Processor::addi, 0xffffffff, 0x00000000, 0xfff);
    test_imm_op(14, Processor::addi, 0x00000000, 0xffffffff, 0x001);
    test_imm_op(15, Processor::addi, 0xfffffffe, 0xffffffff, 0xfff);

    test_imm_op(16, Processor::addi, 0x80000000, 0x7fffffff, 0x001);

    test_imm_src1_eq_dest(17, Processor::addi, 24, 13, 11);

    test_imm_zerosrc1(24, Processor::addi, 32, 32);
    test_imm_zerodest(25, Processor::addi, 33, 50);
}

#[test]
fn slti() {
    test_imm_op(2, Processor::slti, 0, 0x00000000, 0x000);
    test_imm_op(3, Processor::slti, 0, 0x00000001, 0x001);
    test_imm_op(4, Processor::slti, 1, 0x00000003, 0x007);
    test_imm_op(5, Processor::slti, 0, 0x00000007, 0x003);

    test_imm_op(6, Processor::slti, 0, 0x00000000, 0x800);
    test_imm_op(7, Processor::slti, 1, 0x80000000, 0x000);
    test_imm_op(8, Processor::slti, 1, 0x80000000, 0x800);

    test_imm_op(9, Processor::slti, 1, 0x00000000, 0x7ff);
    test_imm_op(10, Processor::slti, 0, 0x7fffffff, 0x000);
    test_imm_op(11, Processor::slti, 0, 0x7fffffff, 0x7ff);

    test_imm_op(12, Processor::slti, 1, 0x80000000, 0x7ff);
    test_imm_op(13, Processor::slti, 0, 0x7fffffff, 0x800);

    test_imm_op(14, Processor::slti, 0, 0x00000000, 0xfff);
    test_imm_op(15, Processor::slti, 1, 0xffffffff, 0x001);
    test_imm_op(16, Processor::slti, 0, 0xffffffff, 0xfff);

    test_imm_src1_eq_dest(17, Processor::slti, 1, 11, 13);

    test_imm_zerosrc1(24, Processor::slti, 0, 0xfff);
    test_imm_zerodest(25, Processor::slti, 0x00ff00ff, 0xfff);
}

#[test]
fn sltiu() {
    test_imm_op(2, Processor::sltiu, 0, 0x00000000, 0x000);
    test_imm_op(4, Processor::sltiu, 1, 0x00000003, 0x007);
    test_imm_op(5, Processor::sltiu, 0, 0x00000007, 0x003);

    test_imm_op(6, Processor::sltiu, 1, 0x00000000, 0x800);
    test_imm_op(7, Processor::sltiu, 0, 0x80000000, 0x000);
    test_imm_op(8, Processor::sltiu, 1, 0x80000000, 0x800);

    test_imm_op(9, Processor::sltiu, 1, 0x00000000, 0x7ff);
    test_imm_op(10, Processor::sltiu, 0, 0x7fffffff, 0x000);
    test_imm_op(11, Processor::sltiu, 0, 0x7fffffff, 0x7ff);

    test_imm_op(12, Processor::sltiu, 0, 0x80000000, 0x7ff);
    test_imm_op(13, Processor::sltiu, 1, 0x7fffffff, 0x800);

    test_imm_op(14, Processor::sltiu, 1, 0x00000000, 0xfff);
    test_imm_op(15, Processor::sltiu, 0, 0xffffffff, 0x001);
    test_imm_op(16, Processor::sltiu, 0, 0xffffffff, 0xfff);

    test_imm_src1_eq_dest(17, Processor::sltiu, 1, 11, 13);

    test_imm_zerosrc1(24, Processor::sltiu, 1, 0xfff);
    test_imm_zerodest(25, Processor::sltiu, 0x00ff00ff, 0xfff);

    // SEQZ
    test_imm_op(3, Processor::sltiu, 1, 0x00000000, 0x001);
    test_imm_op(3, Processor::sltiu, 0, 0x00000001, 0x001);
    test_imm_op(3, Processor::sltiu, 0, 0x00000002, 0x001);
}

#[test]
fn andi() {
    test_imm_op(2, Processor::andi, 0xff00ff00, 0xff00ff00, 0xf0f);
    test_imm_op(3, Processor::andi, 0x000000f0, 0x0ff00ff0, 0x0f0);
    test_imm_op(4, Processor::andi, 0x0000000f, 0x00ff00ff, 0x70f);
    test_imm_op(5, Processor::andi, 0x00000000, 0xf00ff00f, 0x0f0);

    test_imm_src1_eq_dest(6, Processor::andi, 0x00000000, 0xff00ff00, 0x0f0);

    test_imm_zerosrc1(13, Processor::andi, 0, 0x0f0);
    test_imm_zerodest(14, Processor::andi, 0x00ff00ff, 0x70f);
}

#[test]
fn ori() {
    test_imm_op(2, Processor::ori, 0xffffff0f, 0xff00ff00, 0xf0f);
    test_imm_op(3, Processor::ori, 0x0ff00ff0, 0x0ff00ff0, 0x0f0);
    test_imm_op(4, Processor::ori, 0x00ff07ff, 0x00ff00ff, 0x70f);
    test_imm_op(5, Processor::ori, 0xf00ff0ff, 0xf00ff00f, 0x0f0);

    test_imm_src1_eq_dest(6, Processor::ori, 0xff00fff0, 0xff00ff00, 0x0f0);

    test_imm_zerosrc1(13, Processor::ori, 0x0f0, 0x0f0);
    test_imm_zerodest(14, Processor::ori, 0x00ff00ff, 0x70f);
}

#[test]
fn xori() {
    test_imm_op(2, Processor::xori, 0xff00f00f, 0x00ff0f00, 0xf0f);
    test_imm_op(3, Processor::xori, 0x0ff00f00, 0x0ff00ff0, 0x0f0);
    test_imm_op(4, Processor::xori, 0x00ff0ff0, 0x00ff08ff, 0x70f);
    test_imm_op(5, Processor::xori, 0xf00ff0ff, 0xf00ff00f, 0x0f0);

    test_imm_src1_eq_dest(6, Processor::xori, 0xff00f00f, 0xff00f700, 0x70f);

    test_imm_zerosrc1(13, Processor::xori, 0x0f0, 0x0f0);
    test_imm_zerodest(14, Processor::xori, 0x00ff00ff, 0x70f);
}
