use riscv_emu::alu::Xlen;
use riscv_emu::bus::Bus;
use riscv_emu::cpu::Cpu;
use riscv_emu::decode::{decode, sign_extend, Decoded};
use riscv_emu::dram::{Dram, DRAM_BASE, DRAM_SIZE};
use riscv_emu::fault::Fault;

fn i_type(opcode: u32, rd: u32, funct3: u32, rs1: u32, imm: i32) -> u32 {
    (((imm as u32) & 0xfff) << 20) | (rs1 << 15) | (funct3 << 12) | (rd << 7) | opcode
}

fn r_type(opcode: u32, rd: u32, funct3: u32, rs1: u32, rs2: u32, funct7: u32) -> u32 {
    (funct7 << 25) | (rs2 << 20) | (rs1 << 15) | (funct3 << 12) | (rd << 7) | opcode
}

fn s_type(funct3: u32, rs1: u32, rs2: u32, imm: i32) -> u32 {
    let imm = (imm as u32) & 0xfff;
    ((imm >> 5) << 25) | (rs2 << 20) | (rs1 << 15) | (funct3 << 12) | ((imm & 0x1f) << 7) | 0x23
}

fn b_type(funct3: u32, rs1: u32, rs2: u32, imm: i32) -> u32 {
    let imm = (imm as u32) & 0x1fff;
    (((imm >> 12) & 1) << 31)
        | (((imm >> 5) & 0x3f) << 25)
        | (rs2 << 20)
        | (rs1 << 15)
        | (funct3 << 12)
        | (((imm >> 1) & 0xf) << 8)
        | (((imm >> 11) & 1) << 7)
        | 0x63
}

fn j_type(rd: u32, imm: i32) -> u32 {
    let imm = (imm as u32) & 0x1f_ffff;
    (((imm >> 20) & 1) << 31)
        | (((imm >> 1) & 0x3ff) << 21)
        | (((imm >> 11) & 1) << 20)
        | (((imm >> 12) & 0xff) << 12)
        | (rd << 7)
        | 0x6f
}

fn program(words: &[u32]) -> Vec<u8> {
    let mut code = Vec::new();
    for w in words {
        code.extend_from_slice(&w.to_le_bytes());
    }
    code
}

fn run_words(xlen: Xlen, words: &[u32]) -> Cpu {
    let mut cpu = Cpu::with_xlen(xlen, program(words));
    for _ in 0..words.len() {
        cpu.step().expect("step");
    }
    cpu
}

#[test]
fn scenario_add_immediates() {
    let cpu = run_words(
        Xlen::Rv32,
        &[0x00500093, 0x00700113, 0x002081b3],
    );
    assert_eq!(cpu.reg(3), 12);
    assert_eq!(cpu.pc, DRAM_BASE + 12);
}

#[test]
fn scenario_lui_addi() {
    let cpu = run_words(Xlen::Rv32, &[0x000010b7, 0x00108093]);
    assert_eq!(cpu.reg(1), 0x1001);
    let cpu = run_words(Xlen::Rv64, &[0x000010b7, 0x00108093]);
    assert_eq!(cpu.reg(1), 0x1001);
}

#[test]
fn scenario_store_then_load_word() {
    // x1 = 0x8000_1000; x2 = 0x123; SW x2,0(x1); LW x3,0(x1)
    let words = [0x800010b7, 0x12300113, 0x0020a023, 0x0000a183];
    for xlen in [Xlen::Rv32, Xlen::Rv64] {
        let mut cpu = run_words(xlen, &words);
        assert_eq!(cpu.reg(1), 0x8000_1000);
        assert_eq!(cpu.reg(3), 0x123);
        assert_eq!(cpu.reg(3), cpu.reg(2));
        assert_eq!(cpu.load(0x8000_1000, 32), Ok(0x123));
    }
}

#[test]
fn scenario_unknown_opcode_is_illegal() {
    let mut cpu = Cpu::new(program(&[0x0000007f]));
    let regs_before = cpu.regs.clone();
    assert_eq!(cpu.step(), Err(Fault::IllegalInstruction));
    assert_eq!(cpu.regs, regs_before);
    assert_eq!(cpu.pc, DRAM_BASE);
    assert_eq!(cpu.execute(0xffff_ffff), Err(Fault::IllegalInstruction));
    assert_eq!(cpu.regs, regs_before);
}

#[test]
fn write_to_x0_is_discarded() {
    // ADDI x0, x0, 5; LUI x0, 1; JAL x0, 8
    let words = [i_type(0x13, 0, 0, 0, 5), 0x00001037, j_type(0, 8)];
    let cpu = run_words(Xlen::Rv32, &words);
    assert_eq!(cpu.reg(0), 0);
    assert!(cpu.regs.iter().enumerate().all(|(i, &v)| i == 2 || v == 0));
}

#[test]
fn i_immediate_sign_extension() {
    let w = i_type(0x13, 1, 0, 0, -1);
    assert_eq!((w >> 20) & 0xfff, 0xfff);
    match decode(w) {
        Decoded::I { imm, rd, rs1, funct3, opcode } => {
            assert_eq!(imm, u64::MAX);
            assert_eq!((opcode, rd, funct3, rs1), (0x13, 1, 0, 0));
        }
        other => panic!("unexpected {:?}", other),
    }
    match decode(i_type(0x13, 1, 0, 0, 0x7ff)) {
        Decoded::I { imm, .. } => assert_eq!(imm, 0x7ff),
        other => panic!("unexpected {:?}", other),
    }
    let cpu = run_words(Xlen::Rv32, &[w]);
    assert_eq!(cpu.reg(1), 0xffff_ffff);
    let cpu = run_words(Xlen::Rv64, &[w]);
    assert_eq!(cpu.reg(1), u64::MAX);
}

#[test]
fn sign_extend_generic() {
    assert_eq!(sign_extend(0xfff, 12, 64), u64::MAX);
    assert_eq!(sign_extend(0xfff, 12, 32), 0xffff_ffff);
    assert_eq!(sign_extend(0x800, 12, 32), 0xffff_f800);
    assert_eq!(sign_extend(0x7ff, 12, 64), 0x7ff);
    assert_eq!(sign_extend(0x1000, 13, 64), 0xffff_ffff_ffff_f000);
    assert_eq!(sign_extend(0x8000_0000, 32, 64), 0xffff_ffff_8000_0000);
}

#[test]
fn decode_formats() {
    assert_eq!(
        decode(s_type(2, 1, 2, -4)),
        Decoded::S { opcode: 0x23, funct3: 2, rs1: 1, rs2: 2, imm: (-4i64) as u64 }
    );
    assert_eq!(
        decode(b_type(0, 1, 1, 8)),
        Decoded::B { opcode: 0x63, funct3: 0, rs1: 1, rs2: 1, imm: 8 }
    );
    assert_eq!(decode(b_type(0, 1, 1, 8)), decode(0x00108463));
    assert_eq!(
        decode(b_type(1, 3, 4, -4096)),
        Decoded::B { opcode: 0x63, funct3: 1, rs1: 3, rs2: 4, imm: (-4096i64) as u64 }
    );
    assert_eq!(decode(j_type(1, -2)), Decoded::J { opcode: 0x6f, rd: 1, imm: (-2i64) as u64 });
    assert_eq!(decode(j_type(5, 0xf_fffe)), Decoded::J { opcode: 0x6f, rd: 5, imm: 0xf_fffe });
    assert_eq!(decode(0xfffff0b7), Decoded::U { opcode: 0x37, rd: 1, imm: 0xffff_f000 });
    assert_eq!(
        decode(r_type(0x33, 3, 0, 1, 2, 0x20)),
        Decoded::R { opcode: 0x33, rd: 3, funct3: 0, rs1: 1, rs2: 2, funct7: 0x20 }
    );
    assert_eq!(decode(0x0000007f), Decoded::Unknown { opcode: 0x7f });
}

#[test]
fn branch_target_is_relative_to_branch() {
    // BEQ x1, x1, +8 at DRAM_BASE
    let mut cpu = Cpu::new(program(&[0x00108463]));
    cpu.step().unwrap();
    assert_eq!(cpu.pc, DRAM_BASE + 8);
    // a branch not taken falls through
    let mut cpu = Cpu::new(program(&[b_type(1, 1, 1, 8)]));
    cpu.step().unwrap();
    assert_eq!(cpu.pc, DRAM_BASE + 4);
    // a backward branch from the caller-advanced pc
    let mut cpu = Cpu::new(program(&[0x00000013, b_type(0, 0, 0, -4)]));
    cpu.step().unwrap();
    cpu.step().unwrap();
    assert_eq!(cpu.pc, DRAM_BASE);
}

#[test]
fn jal_and_jalr_return_address() {
    let mut cpu = Cpu::new(program(&[0x00000013, j_type(1, 16)]));
    cpu.step().unwrap();
    cpu.step().unwrap();
    assert_eq!(cpu.reg(1), DRAM_BASE + 8);
    assert_eq!(cpu.pc, DRAM_BASE + 4 + 16);
    // JALR x5, 3(x2): x2 is the stack pointer (end of memory); bit 0 cleared
    let mut cpu = Cpu::new(program(&[i_type(0x67, 5, 0, 2, 3)]));
    cpu.step().unwrap();
    assert_eq!(cpu.reg(5), DRAM_BASE + 4);
    assert_eq!(cpu.pc, DRAM_BASE + DRAM_SIZE + 2);
    assert_eq!(cpu.step(), Err(Fault::Misaligned));
}

#[test]
fn auipc_uses_instruction_address() {
    let cpu = run_words(Xlen::Rv32, &[0x00000013, 0x00001097]);
    assert_eq!(cpu.reg(1), DRAM_BASE + 4 + 0x1000);
}

#[test]
fn alu_wraps_and_compares() {
    // x1 = -1; x2 = 1; x3 = x1 + x2; x4 = SLT x1,x2; x5 = SLTU x1,x2; x6 = SUB x0,x2
    let words = [
        i_type(0x13, 1, 0, 0, -1),
        i_type(0x13, 2, 0, 0, 1),
        r_type(0x33, 3, 0, 1, 2, 0),
        r_type(0x33, 4, 2, 1, 2, 0),
        r_type(0x33, 5, 3, 1, 2, 0),
        r_type(0x33, 6, 0, 0, 2, 0x20),
        r_type(0x33, 7, 5, 1, 2, 0x20),
        r_type(0x33, 8, 5, 1, 2, 0),
        r_type(0x33, 9, 1, 2, 1, 0),
    ];
    let cpu = run_words(Xlen::Rv32, &words);
    assert_eq!(cpu.reg(3), 0);
    assert_eq!(cpu.reg(4), 1);
    assert_eq!(cpu.reg(5), 0);
    assert_eq!(cpu.reg(6), 0xffff_ffff);
    assert_eq!(cpu.reg(7), 0xffff_ffff);
    assert_eq!(cpu.reg(8), 0x7fff_ffff);
    assert_eq!(cpu.reg(9), 0x8000_0000);
    let cpu = run_words(Xlen::Rv64, &words);
    assert_eq!(cpu.reg(3), 0);
    assert_eq!(cpu.reg(6), u64::MAX);
    assert_eq!(cpu.reg(8), 0x7fff_ffff_ffff_ffff);
    assert_eq!(cpu.reg(9), 0x8000_0000_0000_0000);
}

#[test]
fn shift_immediates() {
    // x1 = -16; SRAI x2,x1,2; SRLI x3,x1,28; SLLI x4,x1,1
    let srai = i_type(0x13, 2, 5, 1, 0x400 | 2);
    let srli = i_type(0x13, 3, 5, 1, 28);
    let slli = i_type(0x13, 4, 1, 1, 1);
    let cpu = run_words(Xlen::Rv32, &[i_type(0x13, 1, 0, 0, -16), srai, srli, slli]);
    assert_eq!(cpu.reg(2), 0xffff_fffc);
    assert_eq!(cpu.reg(3), 0xf);
    assert_eq!(cpu.reg(4), 0xffff_ffe0);
    // a shift amount of 32 is illegal at 32 bits, legal at 64
    let slli32 = i_type(0x13, 5, 1, 1, 32);
    let mut cpu = Cpu::new(program(&[slli32]));
    assert_eq!(cpu.step(), Err(Fault::IllegalInstruction));
    let cpu = run_words(Xlen::Rv64, &[i_type(0x13, 1, 0, 0, 1), i_type(0x13, 5, 1, 1, 32)]);
    assert_eq!(cpu.reg(5), 0x1_0000_0000);
}

#[test]
fn word_ops_on_rv64() {
    // x1 = 0x7fffffff via LUI+ADDI; ADDIW x2,x1,1 -> sign-extended 0x80000000
    let words = [
        0x800000b7,
        i_type(0x13, 1, 0, 1, -1),
        i_type(0x1b, 2, 0, 1, 1),
        r_type(0x3b, 3, 0, 2, 2, 0),
        i_type(0x1b, 4, 5, 2, 0x400 | 4),
        r_type(0x3b, 5, 0, 0, 2, 0x20),
    ];
    let cpu = run_words(Xlen::Rv64, &words);
    assert_eq!(cpu.reg(1), 0x7fff_ffff);
    assert_eq!(cpu.reg(2), 0xffff_ffff_8000_0000);
    assert_eq!(cpu.reg(3), 0);
    assert_eq!(cpu.reg(4), 0xffff_ffff_f800_0000);
    assert_eq!(cpu.reg(5), 0xffff_ffff_8000_0000);
    let mut cpu = Cpu::new(program(&[i_type(0x1b, 2, 0, 1, 1)]));
    assert_eq!(cpu.step(), Err(Fault::IllegalInstruction));
}

#[test]
fn loads_extend_by_mnemonic() {
    let words = [
        0x800000b7,               // x1 = DRAM_BASE
        i_type(0x13, 2, 0, 0, -128),
        s_type(0, 1, 2, 0x100),  // SB x2, 0x100(x1)
        i_type(0x03, 3, 0, 1, 0x100), // LB
        i_type(0x03, 4, 4, 1, 0x100), // LBU
        s_type(1, 1, 2, 0x104),  // SH
        i_type(0x03, 5, 1, 1, 0x104), // LH
        i_type(0x03, 6, 5, 1, 0x104), // LHU
    ];
    let cpu = run_words(Xlen::Rv32, &words);
    assert_eq!(cpu.reg(3), 0xffff_ff80);
    assert_eq!(cpu.reg(4), 0x80);
    assert_eq!(cpu.reg(5), 0xffff_ff80);
    assert_eq!(cpu.reg(6), 0xff80);
}

#[test]
fn double_word_access_on_rv64() {
    let words = [
        0x800000b7,
        i_type(0x13, 2, 0, 0, -3),
        s_type(3, 1, 2, 0x200),           // SD
        i_type(0x03, 3, 3, 1, 0x200),     // LD
        i_type(0x03, 4, 2, 1, 0x204),     // LW high half
    ];
    let cpu = run_words(Xlen::Rv64, &words);
    assert_eq!(cpu.reg(3), (-3i64) as u64);
    assert_eq!(cpu.reg(4), u64::MAX);
    let mut cpu = Cpu::new(program(&[0x800000b7, s_type(3, 1, 0, 0x200)]));
    cpu.step().unwrap();
    assert_eq!(cpu.step(), Err(Fault::IllegalInstruction));
}

#[test]
fn load_fault_leaves_state() {
    // LW x3, 0(x2): x2 is one past the end of memory
    let mut cpu = Cpu::new(program(&[i_type(0x03, 3, 2, 2, 0)]));
    assert_eq!(cpu.step(), Err(Fault::OutOfBounds));
    assert_eq!(cpu.pc, DRAM_BASE);
    assert_eq!(cpu.reg(3), 0);
}

#[test]
fn system_and_fence_are_no_ops() {
    let cpu = run_words(Xlen::Rv32, &[0x00000073, 0x0ff0000f]);
    assert_eq!(cpu.pc, DRAM_BASE + 8);
    assert!(cpu.regs.iter().enumerate().all(|(i, &v)| i == 2 || v == 0));
}

#[test]
fn store_load_round_trip_all_widths() {
    let mut bus = Bus::with_xlen(Xlen::Rv64, vec![]);
    let v: u64 = 0x1122_3344_5566_7788;
    for (size, mask) in [(8u32, 0xffu64), (16, 0xffff), (32, 0xffff_ffff), (64, u64::MAX)] {
        let addr = DRAM_BASE + 0x40;
        assert_eq!(bus.store(addr, size, v), Ok(()));
        assert_eq!(bus.load(addr, size), Ok(v & mask));
    }
    assert_eq!(bus.load(DRAM_BASE + 0x40, 8), Ok(0x88));
    assert_eq!(bus.load(DRAM_BASE + 0x47, 8), Ok(0x11));
    let mut bus = Bus::new(vec![]);
    for (size, mask) in [(8u32, 0xffu64), (16, 0xffff), (32, 0xffff_ffff)] {
        let addr = DRAM_BASE + 0x40;
        assert_eq!(bus.store(addr, size, v), Ok(()));
        assert_eq!(bus.load(addr, size), Ok(v & mask));
    }
}

#[test]
fn double_word_access_needs_64_bit_machine() {
    let mut bus = Bus::new(vec![]);
    assert_eq!(bus.load(DRAM_BASE, 64), Err(Fault::UnsupportedWidth));
    assert_eq!(bus.store(DRAM_BASE, 64, 1), Err(Fault::UnsupportedWidth));
    assert_eq!(bus.load(DRAM_BASE, 32), Ok(0));
    assert_eq!(bus.store(DRAM_BASE - 1, 8, 1), Err(Fault::OutOfBounds));
    assert_eq!(bus.store(DRAM_BASE, 24, 1), Err(Fault::UnsupportedWidth));
    assert_eq!(bus.load(DRAM_BASE, 32), Ok(0));
    let mut dram = Dram::new(vec![]);
    assert_eq!(dram.load(DRAM_BASE, 64), Err(Fault::UnsupportedWidth));
    assert_eq!(dram.store(DRAM_BASE, 64, 1), Err(Fault::UnsupportedWidth));
    let mut cpu = Cpu::new(vec![]);
    assert_eq!(cpu.load(DRAM_BASE, 64), Err(Fault::UnsupportedWidth));
    assert_eq!(cpu.store(DRAM_BASE, 64, 1), Err(Fault::UnsupportedWidth));
    let mut cpu = Cpu::with_xlen(Xlen::Rv64, vec![]);
    assert_eq!(cpu.store(DRAM_BASE, 64, u64::MAX), Ok(()));
    assert_eq!(cpu.load(DRAM_BASE, 64), Ok(u64::MAX));
}

#[test]
fn boundary_of_window() {
    let bus = Bus::new(vec![]);
    assert_eq!(bus.load(DRAM_BASE + DRAM_SIZE, 8), Err(Fault::OutOfBounds));
    assert_eq!(bus.load(DRAM_BASE + DRAM_SIZE - 1, 8), Ok(0));
    assert_eq!(bus.load(DRAM_BASE + DRAM_SIZE - 2, 32), Err(Fault::OutOfBounds));
    assert_eq!(bus.load(DRAM_BASE - 1, 8), Err(Fault::OutOfBounds));
    assert_eq!(bus.load(DRAM_BASE, 24), Err(Fault::UnsupportedWidth));
}

#[test]
fn partial_store_is_refused_whole() {
    let mut bus = Bus::new(vec![]);
    let last = DRAM_BASE + DRAM_SIZE - 2;
    assert_eq!(bus.store(last, 32, 0xdead_beef), Err(Fault::OutOfBounds));
    assert_eq!(bus.load(last, 16), Ok(0));
    assert_eq!(bus.store(last, 12, 1), Err(Fault::UnsupportedWidth));
}

#[test]
fn dram_holds_code_then_zeros() {
    let dram = Dram::new(vec![1, 2, 3, 4, 5]);
    assert_eq!(dram.dram.len() as u64, DRAM_SIZE);
    assert_eq!(dram.load(DRAM_BASE, 32), Ok(0x0403_0201));
    assert_eq!(dram.load(DRAM_BASE + 4, 16), Ok(5));
    let small = Dram::with_region(Xlen::Rv32, 0x1000, 4, vec![0xaa]);
    assert_eq!(small.load(0x1000, 32), Ok(0xaa));
    assert_eq!(small.load(0x1001, 32), Err(Fault::OutOfBounds));
}

#[test]
fn new_cpu_layout() {
    let mut cpu = Cpu::new(program(&[0x00500093]));
    assert_eq!(cpu.pc, DRAM_BASE);
    assert_eq!(cpu.reg(2), DRAM_BASE + DRAM_SIZE);
    assert_eq!(cpu.fetch(), Ok(0x00500093));
    assert_eq!(cpu.store(DRAM_BASE + 8, 32, 0xabcd), Ok(()));
    assert_eq!(cpu.load(DRAM_BASE + 8, 32), Ok(0xabcd));
    assert_eq!(cpu.load(DRAM_BASE + 8, 7), Err(Fault::UnsupportedWidth));
}

#[test]
fn run_stops_on_fault_or_limit() {
    // ADDI x1,x1,1 repeated then an illegal word
    let mut cpu = Cpu::new(program(&[0x00108093, 0x00108093, 0x00108093, 0]));
    assert_eq!(cpu.run(2), (2, None));
    assert_eq!(cpu.reg(1), 2);
    assert_eq!(cpu.run(10), (1, Some(Fault::IllegalInstruction)));
    assert_eq!(cpu.reg(1), 3);
    // JALR x0, 0(x0) jumps to address zero and the run stops there
    let mut cpu = Cpu::new(program(&[i_type(0x67, 0, 0, 0, 0)]));
    assert_eq!(cpu.run(10), (1, None));
    assert_eq!(cpu.pc, 0);
}
