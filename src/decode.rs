use vstd::arithmetic::div_mod::{lemma_mod_sub_multiples_vanish, lemma_small_mod};
use vstd::arithmetic::power2::{
    lemma2_to64, lemma2_to64_rest, lemma_pow2_adds, lemma_pow2_pos, lemma_pow2_strictly_increases,
    pow2,
};
use vstd::bits::{
    lemma_u32_low_bits_mask_is_mod, lemma_u32_shl_is_mul, lemma_u32_shr_is_div, lemma_u64_shl_is_mul,
    low_bits_mask,
};
use vstd::prelude::*;

verus! {

/// The `width` bits of `w` that start at bit `lo`.
pub open spec fn field(w: u32, lo: nat, width: nat) -> nat {
    (w as nat / pow2(lo)) % pow2(width)
}

/// The two's-complement value of the `bits`-bit pattern `v`.
pub open spec fn sext(v: nat, bits: nat) -> int {
    if bits > 0 && v >= pow2((bits - 1) as nat) {
        v - pow2(bits)
    } else {
        v as int
    }
}

/// The `bits`-bit two's-complement pattern of `v`.
pub open spec fn two_complement(v: int, bits: nat) -> nat {
    (v % pow2(bits) as int) as nat
}

pub open spec fn imm_i(w: u32) -> int {
    sext(field(w, 20, 12), 12)
}

pub open spec fn imm_s(w: u32) -> int {
    sext(field(w, 25, 7) * 32 + field(w, 7, 5), 12)
}

pub open spec fn imm_b(w: u32) -> int {
    sext(field(w, 31, 1) * 4096 + field(w, 7, 1) * 2048 + field(w, 25, 6) * 32 + field(w, 8, 4) * 2, 13)
}

pub open spec fn imm_j(w: u32) -> int {
    sext(
        field(w, 31, 1) * 0x10_0000 + field(w, 12, 8) * 4096 + field(w, 20, 1) * 2048 + field(w, 21, 10) * 2,
        21,
    )
}

/// Bits 31..12 in place, low 12 bits zero.
pub open spec fn imm_u(w: u32) -> int {
    (field(w, 12, 20) * 4096) as int
}

/// An instruction word split into the fields of its format.
#[derive(Debug, Clone, Copy, PartialEq, Eq, Structural)]
pub enum Decoded {
    R { opcode: u32, rd: usize, funct3: u32, rs1: usize, rs2: usize, funct7: u32 },
    I { opcode: u32, rd: usize, funct3: u32, rs1: usize, imm: u64 },
    S { opcode: u32, funct3: u32, rs1: usize, rs2: usize, imm: u64 },
    B { opcode: u32, funct3: u32, rs1: usize, rs2: usize, imm: u64 },
    U { opcode: u32, rd: usize, imm: u64 },
    J { opcode: u32, rd: usize, imm: u64 },
    Unknown { opcode: u32 },
}

/// Immediates are held as 64-bit two's-complement patterns.
pub open spec fn imm64(v: int) -> u64 {
    two_complement(v, 64) as u64
}

pub open spec fn is_r_opcode(op: nat) -> bool {
    op == 0x33 || op == 0x3b
}

pub open spec fn is_i_opcode(op: nat) -> bool {
    op == 0x03 || op == 0x13 || op == 0x1b || op == 0x67 || op == 0x73 || op == 0x0f
}

/// The structured form of instruction word `w`.
pub open spec fn decoded(w: u32) -> Decoded {
    let op = field(w, 0, 7);
    let rd = field(w, 7, 5) as usize;
    let funct3 = field(w, 12, 3) as u32;
    let rs1 = field(w, 15, 5) as usize;
    let rs2 = field(w, 20, 5) as usize;
    if is_r_opcode(op) {
        Decoded::R { opcode: op as u32, rd, funct3, rs1, rs2, funct7: field(w, 25, 7) as u32 }
    } else if is_i_opcode(op) {
        Decoded::I { opcode: op as u32, rd, funct3, rs1, imm: imm64(imm_i(w)) }
    } else if op == 0x23 {
        Decoded::S { opcode: op as u32, funct3, rs1, rs2, imm: imm64(imm_s(w)) }
    } else if op == 0x63 {
        Decoded::B { opcode: op as u32, funct3, rs1, rs2, imm: imm64(imm_b(w)) }
    } else if op == 0x37 || op == 0x17 {
        Decoded::U { opcode: op as u32, rd, imm: imm64(imm_u(w)) }
    } else if op == 0x6f {
        Decoded::J { opcode: op as u32, rd, imm: imm64(imm_j(w)) }
    } else {
        Decoded::Unknown { opcode: op as u32 }
    }
}

/// The immediate a decoded instruction carries (zero for an unknown opcode).
pub open spec fn imm_of(d: Decoded) -> u64 {
    match d {
        Decoded::I { imm, .. } => imm,
        Decoded::S { imm, .. } => imm,
        Decoded::B { imm, .. } => imm,
        Decoded::U { imm, .. } => imm,
        Decoded::J { imm, .. } => imm,
        _ => 0,
    }
}

/// The I-type immediate is sign-extended from bit 11: with bit 11 clear it is
/// the field's own value, with bit 11 set the field minus 2^12, so that a
/// field of all ones gives the all-ones word (-1).
pub proof fn lemma_imm_i_sign_extension(w: u32)
    requires
        is_i_opcode(field(w, 0, 7)),
    ensures
        decoded(w) is I,
        field(w, 20, 12) < 0x800 ==> imm_of(decoded(w)) == field(w, 20, 12),
        field(w, 20, 12) >= 0x800 ==> imm_of(decoded(w)) == 0x1_0000_0000_0000_0000 + field(w, 20, 12)
            - 0x1000,
        field(w, 20, 12) == 0xfff ==> imm_of(decoded(w)) == u64::MAX,
{
    lemma2_to64();
    lemma2_to64_rest();
    let f = field(w, 20, 12);
    assert(f < 0x1000);
    if f < 0x800 {
        lemma_small_mod(f, pow2(64));
    } else {
        lemma_mod_sub_multiples_vanish(f - 0x1000 + 0x1_0000_0000_0000_0000, pow2(64) as int);
        lemma_small_mod((f - 0x1000 + 0x1_0000_0000_0000_0000) as nat, pow2(64));
    }
}

/// The `width` bits of `w` that start at bit `lo`.
pub fn bits(w: u32, lo: u32, width: u32) -> (r: u32)
    requires
        lo < 32,
        1 <= width < 32,
    ensures
        r as nat == field(w, lo as nat, width as nat),
        r < pow2(width as nat),
{
    proof {
        lemma_u32_shr_is_div(w, lo);
        lemma2_to64();
        lemma_pow2_pos(width as nat);
        vstd::bits::lemma_u32_pow2_no_overflow(width as nat);
        lemma_u32_shl_is_mul(1, width);
        lemma_u32_low_bits_mask_is_mod(w >> lo, width as nat);
        assert(low_bits_mask(width as nat) == pow2(width as nat) - 1) by {
            reveal(low_bits_mask);
        }
    }
    let mask: u32 = (1u32 << width) - 1;
    (w >> lo) & mask
}

/// Splits instruction word `w` into opcode, register indices, function codes
/// and the sign-extended immediate of its format. Never fails: an unknown
/// opcode is kept as `Unknown`.
pub fn decode(w: u32) -> (d: Decoded)
    ensures
        d == decoded(w),
{
    proof {
        lemma2_to64();
    }
    let op = bits(w, 0, 7);
    let rd = bits(w, 7, 5) as usize;
    let funct3 = bits(w, 12, 3);
    let rs1 = bits(w, 15, 5) as usize;
    let rs2 = bits(w, 20, 5) as usize;
    if op == 0x33 || op == 0x3b {
        Decoded::R { opcode: op, rd, funct3, rs1, rs2, funct7: bits(w, 25, 7) }
    } else if op == 0x03 || op == 0x13 || op == 0x1b || op == 0x67 || op == 0x73 || op == 0x0f {
        let raw = bits(w, 20, 12);
        Decoded::I { opcode: op, rd, funct3, rs1, imm: sign_extend(raw as u64, 12, 64) }
    } else if op == 0x23 {
        let raw = bits(w, 25, 7) * 32 + bits(w, 7, 5);
        Decoded::S { opcode: op, funct3, rs1, rs2, imm: sign_extend(raw as u64, 12, 64) }
    } else if op == 0x63 {
        let raw = bits(w, 31, 1) * 4096 + bits(w, 7, 1) * 2048 + bits(w, 25, 6) * 32 + bits(w, 8, 4)
            * 2;
        Decoded::B { opcode: op, funct3, rs1, rs2, imm: sign_extend(raw as u64, 13, 64) }
    } else if op == 0x37 || op == 0x17 {
        let raw = bits(w, 12, 20) as u64 * 4096;
        proof {
            lemma_small_mod(raw as nat, pow2(64));
        }
        Decoded::U { opcode: op, rd, imm: raw }
    } else if op == 0x6f {
        let raw = bits(w, 31, 1) * 0x10_0000 + bits(w, 12, 8) * 4096 + bits(w, 20, 1) * 2048 + bits(
            w,
            21,
            10,
        ) * 2;
        Decoded::J { opcode: op, rd, imm: sign_extend(raw as u64, 21, 64) }
    } else {
        Decoded::Unknown { opcode: op }
    }
}

/// Sign-extends the `from_bits`-bit pattern `value` to `to_bits` bits.
pub fn sign_extend(value: u64, from_bits: u32, to_bits: u32) -> (r: u64)
    requires
        1 <= from_bits < 64,
        from_bits <= to_bits <= 64,
        value < pow2(from_bits as nat),
    ensures
        r as nat == two_complement(sext(value as nat, from_bits as nat), to_bits as nat),
        r < pow2(to_bits as nat),
{
    proof {
        lemma2_to64();
        lemma2_to64_rest();
        lemma_pow2_pos(from_bits as nat);
        lemma_pow2_pos(to_bits as nat);
        lemma_u64_shl_is_mul(1, from_bits as u64);
        lemma_u64_shl_is_mul(1, (from_bits - 1) as u64);
        lemma_pow2_adds((from_bits - 1) as nat, 1);
        if from_bits < to_bits {
            lemma_pow2_strictly_increases(from_bits as nat, to_bits as nat);
        }
    }
    let half: u64 = 1u64 << ((from_bits - 1) as u64);
    if value < half {
        proof {
            lemma_small_mod(value as nat, pow2(to_bits as nat));
        }
        value
    } else {
        let top: u64 = 1u64 << (from_bits as u64);
        let high: u64 = if to_bits == 64 {
            u64::MAX - (top - 1)
        } else {
            proof {
                lemma_u64_shl_is_mul(1, to_bits as u64);
            }
            (1u64 << (to_bits as u64)) - top
        };
        let r = value + high;
        proof {
            let s = sext(value as nat, from_bits as nat);
            let m = pow2(to_bits as nat) as int;
            assert(s == r - m);
            lemma_mod_sub_multiples_vanish(r as int, m);
            lemma_small_mod(r as nat, m as nat);
        }
        r
    }
}

} // verus!
