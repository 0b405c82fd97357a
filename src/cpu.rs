use vstd::arithmetic::power2::{lemma2_to64, lemma2_to64_rest};
use vstd::prelude::*;

use crate::alu::{
    add_word, branch, branch_taken, is_word, modulus, op, op32, op32_value, op_imm, op_imm32,
    op_imm32_value, op_imm_value, op_value, sub_word, wrap, wrap_word, xbits, Xlen,
};
use crate::bus::{load_result, store_result, Bus};
use crate::decode::{decode, decoded, sext, sign_extend, two_complement, Decoded};
use crate::dram::{lemma_le_value_bound, stored, width_bytes, DRAM_BASE, DRAM_SIZE};
use crate::fault::Fault;

verus! {

/// The architectural state: word width, registers, program counter and the
/// memory window.
pub struct MachineState {
    pub xlen: Xlen,
    pub regs: Seq<u64>,
    pub pc: u64,
    pub base: u64,
    pub mem: Seq<u8>,
}

pub open spec fn reg(s: MachineState, i: usize) -> u64 {
    s.regs[i as int]
}

/// `s` with register `rd` set to `v`; a write to register 0 is discarded.
pub open spec fn with_reg(s: MachineState, rd: usize, v: u64) -> MachineState {
    if rd == 0 {
        s
    } else {
        MachineState { regs: s.regs.update(rd as int, v), ..s }
    }
}

pub open spec fn with_pc(s: MachineState, pc: u64) -> MachineState {
    MachineState { pc, ..s }
}

/// Width in bits and signedness of the LOAD named by `funct3`.
pub open spec fn load_kind(xl: Xlen, funct3: u32) -> Option<(u32, bool)> {
    if funct3 == 0 {
        Some((8u32, true))
    } else if funct3 == 1 {
        Some((16u32, true))
    } else if funct3 == 2 {
        Some((32u32, true))
    } else if funct3 == 3 && xl == Xlen::Rv64 {
        Some((64u32, false))
    } else if funct3 == 4 {
        Some((8u32, false))
    } else if funct3 == 5 {
        Some((16u32, false))
    } else {
        None
    }
}

/// Width in bits of the STORE named by `funct3`.
pub open spec fn store_size(xl: Xlen, funct3: u32) -> Option<u32> {
    if funct3 == 0 {
        Some(8u32)
    } else if funct3 == 1 {
        Some(16u32)
    } else if funct3 == 2 {
        Some(32u32)
    } else if funct3 == 3 && xl == Xlen::Rv64 {
        Some(64u32)
    } else {
        None
    }
}

/// The `size`-bit value `raw` widened to a machine word.
pub open spec fn extend(xl: Xlen, raw: u64, size: u32, is_signed: bool) -> u64 {
    if is_signed {
        two_complement(sext(raw as nat, size as nat), xbits(xl)) as u64
    } else {
        raw
    }
}

/// `v` with bit 0 cleared.
pub open spec fn clear_low_bit(v: u64) -> u64 {
    (v - v % 2) as u64
}

/// Outcome of executing `d` on `s`, where `s.pc` has already been advanced
/// past the instruction, which stands at `s.pc - 4`.
pub open spec fn exec_spec(s: MachineState, d: Decoded) -> Result<MachineState, Fault> {
    let xl = s.xlen;
    let at = wrap(xl, s.pc - 4);
    match d {
        Decoded::R { opcode, rd, funct3, rs1, rs2, funct7 } => {
            let v = if opcode == 0x33 {
                op_value(xl, funct3, funct7, reg(s, rs1), reg(s, rs2))
            } else if xl == Xlen::Rv64 {
                op32_value(funct3, funct7, reg(s, rs1), reg(s, rs2))
            } else {
                None
            };
            match v {
                Some(v) => Ok(with_reg(s, rd, v)),
                None => Err(Fault::IllegalInstruction),
            }
        },
        Decoded::I { opcode, rd, funct3, rs1, imm } => {
            let im = wrap(xl, imm as int);
            let a = reg(s, rs1);
            if opcode == 0x03 {
                match load_kind(xl, funct3) {
                    Some((size, sg)) => match load_result(s.xlen, s.base, s.mem, wrap(xl, a + im), size) {
                        Ok(raw) => Ok(with_reg(s, rd, extend(xl, raw, size, sg))),
                        Err(f) => Err(f),
                    },
                    None => Err(Fault::IllegalInstruction),
                }
            } else if opcode == 0x13 || (opcode == 0x1b && xl == Xlen::Rv64) {
                let v = if opcode == 0x13 {
                    op_imm_value(xl, funct3, a, im)
                } else {
                    op_imm32_value(funct3, a, im)
                };
                match v {
                    Some(v) => Ok(with_reg(s, rd, v)),
                    None => Err(Fault::IllegalInstruction),
                }
            } else if opcode == 0x67 {
                Ok(with_pc(with_reg(s, rd, wrap(xl, at + 4)), clear_low_bit(wrap(xl, a + im))))
            } else if opcode == 0x73 || opcode == 0x0f {
                Ok(s)
            } else {
                Err(Fault::IllegalInstruction)
            }
        },
        Decoded::S { opcode, funct3, rs1, rs2, imm } => {
            let addr = wrap(xl, reg(s, rs1) + wrap(xl, imm as int));
            match store_size(xl, funct3) {
                Some(size) => match store_result(s.xlen, s.base, s.mem, addr, size) {
                    Ok(_) => Ok(
                        MachineState {
                            mem: stored(s.mem, addr - s.base, reg(s, rs2), width_bytes(size)),
                            ..s
                        },
                    ),
                    Err(f) => Err(f),
                },
                None => Err(Fault::IllegalInstruction),
            }
        },
        Decoded::B { opcode, funct3, rs1, rs2, imm } => match branch_taken(
            xl,
            funct3,
            reg(s, rs1),
            reg(s, rs2),
        ) {
            Some(true) => Ok(with_pc(s, wrap(xl, at + wrap(xl, imm as int)))),
            Some(false) => Ok(s),
            None => Err(Fault::IllegalInstruction),
        },
        Decoded::U { opcode, rd, imm } => {
            if opcode == 0x37 {
                Ok(with_reg(s, rd, wrap(xl, imm as int)))
            } else {
                Ok(with_reg(s, rd, wrap(xl, at + wrap(xl, imm as int))))
            }
        },
        Decoded::J { opcode, rd, imm } => Ok(
            with_pc(with_reg(s, rd, wrap(xl, at + 4)), wrap(xl, at + wrap(xl, imm as int))),
        ),
        Decoded::Unknown { opcode } => Err(Fault::IllegalInstruction),
    }
}

/// Outcome of fetching the instruction word at `s.pc`.
pub open spec fn fetch_spec(s: MachineState) -> Result<u32, Fault> {
    if s.pc % 4 != 0 {
        Err(Fault::Misaligned)
    } else {
        match load_result(s.xlen, s.base, s.mem, s.pc, 32) {
            Ok(w) => Ok(w as u32),
            Err(f) => Err(f),
        }
    }
}

/// Outcome of one step: fetch at `s.pc`, advance the pc by 4, execute.
pub open spec fn step_spec(s: MachineState) -> Result<MachineState, Fault> {
    match fetch_spec(s) {
        Ok(w) => exec_spec(with_pc(s, wrap(s.xlen, s.pc + 4)), decoded(w)),
        Err(f) => Err(f),
    }
}

/// Thirty-two registers, register 0 zero, every value a machine word.
pub open spec fn state_wf(s: MachineState) -> bool {
    &&& s.regs.len() == 32
    &&& s.regs[0] == 0
    &&& forall|i: int| 0 <= i < 32 ==> is_word(s.xlen, #[trigger] s.regs[i])
    &&& is_word(s.xlen, s.pc)
}

/// Register 0 reads zero after any instruction, including one whose
/// destination is register 0.
pub proof fn lemma_x0_stays_zero(s: MachineState, w: u32)
    requires
        state_wf(s),
    ensures
        exec_spec(s, decoded(w)) matches Ok(t) ==> reg(t, 0) == 0,
{
    lemma2_to64();
    let rd = crate::decode::field(w, 7, 5);
    assert(rd < 32);
}

/// Opcodes with defined semantics on a machine of word width `xl`; OP-IMM-32
/// and OP-32 exist only on a 64-bit machine.
pub open spec fn is_known_opcode(xl: Xlen, op: nat) -> bool {
    op == 0x03 || op == 0x0f || op == 0x13 || op == 0x17 || op == 0x23 || op == 0x33 || op == 0x37
        || op == 0x63 || op == 0x67 || op == 0x6f || op == 0x73 || ((op == 0x1b || op == 0x3b) && xl
        == Xlen::Rv64)
}

/// An instruction word whose opcode has no defined semantics is an illegal
/// instruction; executing it changes nothing (see `execute` and `step`).
pub proof fn lemma_unknown_opcode_is_illegal(s: MachineState, w: u32)
    requires
        !is_known_opcode(s.xlen, crate::decode::field(w, 0, 7)),
    ensures
        exec_spec(s, decoded(w)) == Err::<MachineState, Fault>(Fault::IllegalInstruction),
{
}

proof fn lemma_wrap_back(xl: Xlen, pc: u64)
    requires
        is_word(xl, pc),
    ensures
        wrap(xl, wrap(xl, pc + 4) - 4) == pc,
{
    let m = modulus(xl);
    if pc + 4 < m {
        vstd::arithmetic::div_mod::lemma_small_mod((pc + 4) as nat, m as nat);
        vstd::arithmetic::div_mod::lemma_small_mod(pc as nat, m as nat);
    } else {
        vstd::arithmetic::div_mod::lemma_mod_sub_multiples_vanish(pc + 4, m);
        vstd::arithmetic::div_mod::lemma_small_mod((pc + 4 - m) as nat, m as nat);
        vstd::arithmetic::div_mod::lemma_mod_sub_multiples_vanish(pc as int, m);
        vstd::arithmetic::div_mod::lemma_small_mod(pc as nat, m as nat);
    }
}

/// A taken BEQ at address `s.pc` moves the pc to `s.pc + imm`: the target is
/// relative to the branch's own address, not to the advanced pc the caller
/// hands to `execute`.
pub proof fn lemma_branch_target(s: MachineState, rs1: usize, rs2: usize, imm: u64)
    requires
        state_wf(s),
        rs1 < 32,
        rs2 < 32,
        reg(s, rs1) == reg(s, rs2),
    ensures
        exec_spec(
            with_pc(s, wrap(s.xlen, s.pc + 4)),
            Decoded::B { opcode: 0x63, funct3: 0, rs1, rs2, imm },
        ) == Ok::<MachineState, Fault>(with_pc(s, wrap(s.xlen, s.pc + wrap(s.xlen, imm as int)))),
{
    lemma_wrap_back(s.xlen, s.pc);
}

/// JAL at address `s.pc` writes the return address `s.pc + 4` to its
/// destination, jumps to `s.pc + imm`, and changes nothing else.
pub proof fn lemma_jal_return_address(s: MachineState, rd: usize, imm: u64)
    requires
        state_wf(s),
        rd < 32,
    ensures
        exec_spec(with_pc(s, wrap(s.xlen, s.pc + 4)), Decoded::J { opcode: 0x6f, rd, imm })
            == Ok::<MachineState, Fault>(
            with_pc(
                with_reg(s, rd, wrap(s.xlen, s.pc + 4)),
                wrap(s.xlen, s.pc + wrap(s.xlen, imm as int)),
            ),
        ),
{
    lemma_wrap_back(s.xlen, s.pc);
}

/// JALR at address `s.pc` writes the return address `s.pc + 4` to its
/// destination and jumps to the old `rs1` plus `imm` with bit 0 cleared
/// (also when `rd == rs1`), changing nothing else.
pub proof fn lemma_jalr_return_address(s: MachineState, rd: usize, funct3: u32, rs1: usize, imm: u64)
    requires
        state_wf(s),
        rd < 32,
        rs1 < 32,
    ensures
        exec_spec(
            with_pc(s, wrap(s.xlen, s.pc + 4)),
            Decoded::I { opcode: 0x67, rd, funct3, rs1, imm },
        ) == Ok::<MachineState, Fault>(
            with_pc(
                with_reg(s, rd, wrap(s.xlen, s.pc + 4)),
                clear_low_bit(wrap(s.xlen, reg(s, rs1) + wrap(s.xlen, imm as int))),
            ),
        ),
{
    lemma_wrap_back(s.xlen, s.pc);
}

/// Outcome of running from `s` for at most `max` steps: the final state, the
/// number of steps that completed, and the fault that stopped the run, if
/// one did. A run also stops once a step leaves the pc at zero.
pub open spec fn run_spec(s: MachineState, max: nat) -> (MachineState, nat, Option<Fault>)
    decreases max,
{
    if max == 0 {
        (s, 0, None)
    } else {
        match step_spec(s) {
            Err(f) => (s, 0, Some(f)),
            Ok(t) => if t.pc == 0 {
                (t, 1, None)
            } else {
                let (u, n, f) = run_spec(t, (max - 1) as nat);
                (u, n + 1, f)
            },
        }
    }
}

/// A hart: registers, program counter and the bus to memory.
pub struct Cpu {
    pub xlen: Xlen,
    pub regs: Vec<u64>,
    pub pc: u64,
    pub bus: Bus,
}

impl Cpu {
    /// Thirty-two words, register 0 zero, every value a machine word.
    pub open spec fn wf(&self) -> bool {
        &&& state_wf(self.state())
        &&& self.bus.wf()
        &&& self.bus.xlen() == self.xlen
    }

    pub open spec fn state(&self) -> MachineState {
        MachineState {
            xlen: self.xlen,
            regs: self.regs@,
            pc: self.pc,
            base: self.bus.base(),
            mem: self.bus.mem(),
        }
    }

    /// An RV32 hart over the default memory window holding `code`.
    pub fn new(code: Vec<u8>) -> (r: Cpu)
        requires
            code@.len() <= DRAM_SIZE,
        ensures
            r.wf(),
            r.xlen == Xlen::Rv32,
            r.pc == DRAM_BASE,
            r.regs@[2] == DRAM_BASE + DRAM_SIZE,
            forall|i: int| 0 <= i < 32 && i != 2 ==> r.regs@[i] == 0,
            r.bus.base() == DRAM_BASE,
            r.bus.mem().len() == DRAM_SIZE,
            forall|i: int| 0 <= i < code@.len() ==> r.bus.mem()[i] == code@[i],
            forall|i: int| code@.len() <= i < DRAM_SIZE ==> r.bus.mem()[i] == 0,
    {
        Cpu::with_xlen(Xlen::Rv32, code)
    }

    /// A hart of word width `xlen` over the default memory window holding
    /// `code`; the pc starts at the window's base and the stack pointer (x2)
    /// at its end.
    pub fn with_xlen(xlen: Xlen, code: Vec<u8>) -> (r: Cpu)
        requires
            code@.len() <= DRAM_SIZE,
        ensures
            r.wf(),
            r.xlen == xlen,
            r.pc == DRAM_BASE,
            r.regs@[2] == DRAM_BASE + DRAM_SIZE,
            forall|i: int| 0 <= i < 32 && i != 2 ==> r.regs@[i] == 0,
            r.bus.base() == DRAM_BASE,
            r.bus.mem().len() == DRAM_SIZE,
            forall|i: int| 0 <= i < code@.len() ==> r.bus.mem()[i] == code@[i],
            forall|i: int| code@.len() <= i < DRAM_SIZE ==> r.bus.mem()[i] == 0,
    {
        let mut regs: Vec<u64> = Vec::new();
        let mut i: usize = 0;
        while i < 32
            invariant
                i <= 32,
                regs@.len() == i,
                forall|j: int| 0 <= j < i ==> regs@[j] == (if j == 2 { DRAM_BASE + DRAM_SIZE } else { 0 }),
            decreases 32 - i,
        {
            regs.push(if i == 2 { DRAM_BASE + DRAM_SIZE } else { 0 });
            i = i + 1;
        }
        Cpu { xlen, regs, pc: DRAM_BASE, bus: Bus::with_xlen(xlen, code) }
    }

    /// Reads `size` bits from `addr` through the bus.
    pub fn load(&mut self, addr: u64, size: u32) -> (r: Result<u64, Fault>)
        requires
            old(self).wf(),
        ensures
            *final(self) == *old(self),
            r == load_result(old(self).xlen, old(self).bus.base(), old(self).bus.mem(), addr, size),
    {
        self.bus.load(addr, size)
    }

    /// Writes the low `size` bits of `value` at `addr` through the bus.
    pub fn store(&mut self, addr: u64, size: u32, value: u64) -> (r: Result<(), Fault>)
        requires
            old(self).wf(),
        ensures
            final(self).wf(),
            r == store_result(old(self).xlen, old(self).bus.base(), old(self).bus.mem(), addr, size),
            r is Ok ==> final(self).state() == (MachineState {
                mem: stored(
                    old(self).bus.mem(),
                    addr - old(self).bus.base(),
                    value,
                    width_bytes(size),
                ),
                ..old(self).state()
            }),
            r is Err ==> final(self).state() == old(self).state(),
    {
        self.bus.store(addr, size, value)
    }

    /// Reads the 32-bit instruction word at the pc.
    pub fn fetch(&self) -> (r: Result<u32, Fault>)
        requires
            self.wf(),
        ensures
            r == fetch_spec(self.state()),
    {
        if self.pc % 4 != 0 {
            return Err(Fault::Misaligned);
        }
        match self.bus.load(self.pc, 32) {
            Ok(w) => {
                proof {
                    let n = width_bytes(32);
                    lemma_le_value_bound(
                        self.bus.mem().subrange(self.pc - self.bus.base(), self.pc - self.bus.base() + n),
                    );
                    lemma2_to64();
                }
                Ok(w as u32)
            },
            Err(f) => Err(f),
        }
    }

    /// Executes instruction word `inst`. The pc has already been advanced
    /// past it by the caller, so the instruction itself stands at `pc - 4`.
    /// Register 0 is cleared first; on a fault nothing else changes.
    pub fn execute(&mut self, inst: u32) -> (r: Result<(), Fault>)
        requires
            old(self).wf(),
        ensures
            final(self).wf(),
            match exec_spec(old(self).state(), decoded(inst)) {
                Ok(s) => r == Ok::<(), Fault>(()) && final(self).state() == s,
                Err(f) => r == Err::<(), Fault>(f) && final(self).state() == old(self).state(),
            },
    {
        self.regs.set(0, 0);
        proof {
            assert(self.regs@ =~= old(self).regs@);
            lemma2_to64();
            lemma2_to64_rest();
        }
        let xl = self.xlen;
        let at = sub_word(xl, self.pc, 4);
        let d = decode(inst);
        match d {
            Decoded::R { opcode, rd, funct3, rs1, rs2, funct7 } => {
                let a = self.regs[rs1];
                let b = self.regs[rs2];
                let v = if opcode == 0x33 {
                    op(xl, funct3, funct7, a, b)
                } else if is_rv64(xl) {
                    op32(funct3, funct7, a, b)
                } else {
                    None
                };
                match v {
                    Some(v) => {
                        self.write_reg(rd, v);
                        Ok(())
                    },
                    None => Err(Fault::IllegalInstruction),
                }
            },
            Decoded::I { opcode, rd, funct3, rs1, imm } => {
                let im = wrap_word(xl, imm);
                let a = self.regs[rs1];
                if opcode == 0x03 {
                    match load_kind_exec(xl, funct3) {
                        Some((size, sg)) => match self.bus.load(add_word(xl, a, im), size) {
                            Ok(raw) => {
                                proof {
                                    let addr = wrap(xl, a + im);
                                    let lo = addr - self.bus.base();
                                    lemma_le_value_bound(
                                        self.bus.mem().subrange(lo, lo + width_bytes(size)),
                                    );
                                    assert(8 * width_bytes(size) == size);
                                }
                                let v = if sg {
                                    sign_extend(raw, size, xbits_of(xl))
                                } else {
                                    raw
                                };
                                self.write_reg(rd, v);
                                Ok(())
                            },
                            Err(f) => Err(f),
                        },
                        None => Err(Fault::IllegalInstruction),
                    }
                } else if opcode == 0x13 || (opcode == 0x1b && is_rv64(xl)) {
                    let v = if opcode == 0x13 {
                        op_imm(xl, funct3, a, im)
                    } else {
                        op_imm32(funct3, a, im)
                    };
                    match v {
                        Some(v) => {
                            self.write_reg(rd, v);
                            Ok(())
                        },
                        None => Err(Fault::IllegalInstruction),
                    }
                } else if opcode == 0x67 {
                    let t = add_word(xl, a, im);
                    let target = t - t % 2;
                    self.write_reg(rd, add_word(xl, at, 4));
                    self.pc = target;
                    Ok(())
                } else if opcode == 0x73 || opcode == 0x0f {
                    Ok(())
                } else {
                    Err(Fault::IllegalInstruction)
                }
            },
            Decoded::S { opcode, funct3, rs1, rs2, imm } => {
                let addr = add_word(xl, self.regs[rs1], wrap_word(xl, imm));
                match store_size_exec(xl, funct3) {
                    Some(size) => {
                        let value = self.regs[rs2];
                        self.bus.store(addr, size, value)
                    },
                    None => Err(Fault::IllegalInstruction),
                }
            },
            Decoded::B { opcode, funct3, rs1, rs2, imm } => {
                match branch(xl, funct3, self.regs[rs1], self.regs[rs2]) {
                    Some(true) => {
                        self.pc = add_word(xl, at, wrap_word(xl, imm));
                        Ok(())
                    },
                    Some(false) => Ok(()),
                    None => Err(Fault::IllegalInstruction),
                }
            },
            Decoded::U { opcode, rd, imm } => {
                if opcode == 0x37 {
                    self.write_reg(rd, wrap_word(xl, imm));
                } else {
                    self.write_reg(rd, add_word(xl, at, wrap_word(xl, imm)));
                }
                Ok(())
            },
            Decoded::J { opcode, rd, imm } => {
                let target = add_word(xl, at, wrap_word(xl, imm));
                self.write_reg(rd, add_word(xl, at, 4));
                self.pc = target;
                Ok(())
            },
            Decoded::Unknown { opcode } => Err(Fault::IllegalInstruction),
        }
    }

    /// One step: fetch the word at the pc, advance the pc by 4, execute.
    /// On a fault the pc and registers are as before (register 0 stays zero)
    /// and memory is untouched.
    pub fn step(&mut self) -> (r: Result<(), Fault>)
        requires
            old(self).wf(),
        ensures
            final(self).wf(),
            match step_spec(old(self).state()) {
                Ok(s) => r == Ok::<(), Fault>(()) && final(self).state() == s,
                Err(f) => r == Err::<(), Fault>(f) && final(self).state() == old(self).state(),
            },
    {
        let inst = match self.fetch() {
            Ok(inst) => inst,
            Err(f) => return Err(f),
        };
        let pc = self.pc;
        self.pc = add_word(self.xlen, pc, 4);
        match self.execute(inst) {
            Ok(()) => Ok(()),
            Err(f) => {
                self.pc = pc;
                Err(f)
            },
        }
    }

    /// Steps until a fault, until the pc becomes zero, or until `max_steps`
    /// steps have been made. Returns the number of steps that completed and
    /// the fault that stopped the run, if one did.
    pub fn run(&mut self, max_steps: u64) -> (r: (u64, Option<Fault>))
        requires
            old(self).wf(),
        ensures
            final(self).wf(),
            run_spec(old(self).state(), max_steps as nat) == (
            final(self).state(),
            r.0 as nat,
            r.1,
            ),
    {
        let mut n: u64 = 0;
        while n < max_steps
            invariant
                self.wf(),
                n <= max_steps,
                ({
                    let (u, k, f) = run_spec(self.state(), (max_steps - n) as nat);
                    run_spec(old(self).state(), max_steps as nat) == (u, (k + n) as nat, f)
                }),
            decreases max_steps - n,
        {
            match self.step() {
                Ok(()) => {},
                Err(f) => return (n, Some(f)),
            }
            n = n + 1;
            if self.pc == 0 {
                return (n, None);
            }
        }
        (n, None)
    }

    /// Value of register `i`.
    pub fn reg(&self, i: usize) -> (r: u64)
        requires
            self.wf(),
            i < 32,
        ensures
            r == self.regs@[i as int],
    {
        self.regs[i]
    }

    /// Sets register `rd` to `v`, discarding a write to register 0.
    fn write_reg(&mut self, rd: usize, v: u64)
        requires
            old(self).wf(),
            rd < 32,
            is_word(old(self).xlen, v),
        ensures
            final(self).wf(),
            final(self).state() == with_reg(old(self).state(), rd, v),
    {
        if rd != 0 {
            self.regs.set(rd, v);
        }
        proof {
            if rd != 0 {
                assert(self.regs@ =~= old(self).regs@.update(rd as int, v));
            }
        }
    }
}

fn is_rv64(xl: Xlen) -> (r: bool)
    ensures
        r == (xl == Xlen::Rv64),
{
    match xl {
        Xlen::Rv32 => false,
        Xlen::Rv64 => true,
    }
}

fn xbits_of(xl: Xlen) -> (r: u32)
    ensures
        r == xbits(xl),
{
    match xl {
        Xlen::Rv32 => 32,
        Xlen::Rv64 => 64,
    }
}

fn load_kind_exec(xl: Xlen, funct3: u32) -> (r: Option<(u32, bool)>)
    ensures
        r == load_kind(xl, funct3),
{
    if funct3 == 0 {
        Some((8, true))
    } else if funct3 == 1 {
        Some((16, true))
    } else if funct3 == 2 {
        Some((32, true))
    } else if funct3 == 3 && is_rv64(xl) {
        Some((64, false))
    } else if funct3 == 4 {
        Some((8, false))
    } else if funct3 == 5 {
        Some((16, false))
    } else {
        None
    }
}

fn store_size_exec(xl: Xlen, funct3: u32) -> (r: Option<u32>)
    ensures
        r == store_size(xl, funct3),
{
    if funct3 == 0 {
        Some(8)
    } else if funct3 == 1 {
        Some(16)
    } else if funct3 == 2 {
        Some(32)
    } else if funct3 == 3 && is_rv64(xl) {
        Some(64)
    } else {
        None
    }
}

} // verus!
