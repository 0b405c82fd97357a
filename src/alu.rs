use vstd::arithmetic::div_mod::{lemma_fundamental_div_mod, lemma_mod_multiples_vanish, lemma_small_mod};
use vstd::arithmetic::power2::{lemma2_to64, lemma2_to64_rest, pow2};
use vstd::prelude::*;

use crate::decode::{sext, sign_extend, two_complement};

verus! {

/// The machine's native word width.
#[derive(Debug, Clone, Copy, PartialEq, Eq, Structural)]
pub enum Xlen {
    Rv32,
    Rv64,
}

/// Number of bits in a machine word.
pub open spec fn xbits(xl: Xlen) -> nat {
    match xl {
        Xlen::Rv32 => 32,
        Xlen::Rv64 => 64,
    }
}

/// Number of distinct machine words.
pub open spec fn modulus(xl: Xlen) -> int {
    match xl {
        Xlen::Rv32 => 0x1_0000_0000,
        Xlen::Rv64 => 0x1_0000_0000_0000_0000,
    }
}

/// `v` reduced to a machine word.
pub open spec fn wrap(xl: Xlen, v: int) -> u64 {
    (v % modulus(xl)) as u64
}

/// The machine word `v` read as a two's-complement number.
pub open spec fn signed(xl: Xlen, v: u64) -> int {
    if v < modulus(xl) / 2 {
        v as int
    } else {
        v - modulus(xl)
    }
}

/// `v` reduced to 32 bits, read as signed and widened to a 64-bit word.
pub open spec fn sext32(v: int) -> u64 {
    two_complement(sext(two_complement(v, 32), 32), 64) as u64
}

/// Shift amount taken from the low 5 (RV32) or 6 (RV64) bits of `v`.
pub open spec fn shamt(xl: Xlen, v: u64) -> u64 {
    (v as nat % xbits(xl)) as u64
}

/// Logical shift left: bits moved past the word's top are lost.
pub open spec fn sll(xl: Xlen, a: u64, s: u64) -> u64 {
    wrap(xl, a * pow2(s as nat))
}

/// Logical shift right.
pub open spec fn srl(a: u64, s: u64) -> u64 {
    (a as nat / pow2(s as nat)) as u64
}

/// Arithmetic shift right: the signed value divided by 2^s, rounded down.
pub open spec fn sra(xl: Xlen, a: u64, s: u64) -> u64 {
    wrap(xl, signed(xl, a) / pow2(s as nat) as int)
}

/// The low 32 bits of `a`, as a number.
pub open spec fn low32(a: u64) -> nat {
    a as nat % 0x1_0000_0000
}

/// Result of an OP instruction, or `None` where funct3/funct7 name none.
pub open spec fn op_value(xl: Xlen, funct3: u32, funct7: u32, a: u64, b: u64) -> Option<u64> {
    let s = shamt(xl, b);
    if funct7 == 0 {
        if funct3 == 0 {
            Some(wrap(xl, a + b))
        } else if funct3 == 1 {
            Some(sll(xl, a, s))
        } else if funct3 == 2 {
            Some(if signed(xl, a) < signed(xl, b) { 1u64 } else { 0u64 })
        } else if funct3 == 3 {
            Some(if a < b { 1u64 } else { 0u64 })
        } else if funct3 == 4 {
            Some(a ^ b)
        } else if funct3 == 5 {
            Some(srl(a, s))
        } else if funct3 == 6 {
            Some(a | b)
        } else if funct3 == 7 {
            Some(a & b)
        } else {
            None
        }
    } else if funct7 == 0x20 {
        if funct3 == 0 {
            Some(wrap(xl, a - b))
        } else if funct3 == 5 {
            Some(sra(xl, a, s))
        } else {
            None
        }
    } else {
        None
    }
}

/// Result of an OP-IMM instruction on immediate word `imm`, or `None` where
/// funct3 and the immediate's upper bits name none.
pub open spec fn op_imm_value(xl: Xlen, funct3: u32, a: u64, imm: u64) -> Option<u64> {
    let raw = imm as nat % 4096;
    let s = (raw % xbits(xl)) as u64;
    let hi = raw / xbits(xl);
    if funct3 == 0 {
        Some(wrap(xl, a + imm))
    } else if funct3 == 1 {
        if hi == 0 {
            Some(sll(xl, a, s))
        } else {
            None
        }
    } else if funct3 == 2 {
        Some(if signed(xl, a) < signed(xl, imm) { 1u64 } else { 0u64 })
    } else if funct3 == 3 {
        Some(if a < imm { 1u64 } else { 0u64 })
    } else if funct3 == 4 {
        Some(a ^ imm)
    } else if funct3 == 5 {
        if hi == 0 {
            Some(srl(a, s))
        } else if hi == 1024nat / xbits(xl) {
            Some(sra(xl, a, s))
        } else {
            None
        }
    } else if funct3 == 6 {
        Some(a | imm)
    } else {
        Some(a & imm)
    }
}

/// Result of an OP-32 instruction (RV64 only).
pub open spec fn op32_value(funct3: u32, funct7: u32, a: u64, b: u64) -> Option<u64> {
    let p = pow2(b as nat % 32) as int;
    if funct7 == 0 && funct3 == 0 {
        Some(sext32(a + b))
    } else if funct7 == 0x20 && funct3 == 0 {
        Some(sext32(a - b))
    } else if funct7 == 0 && funct3 == 1 {
        Some(sext32(low32(a) * p))
    } else if funct7 == 0 && funct3 == 5 {
        Some(sext32(low32(a) as int / p))
    } else if funct7 == 0x20 && funct3 == 5 {
        Some(sext32(sext(low32(a), 32) / p))
    } else {
        None
    }
}

/// Result of an OP-IMM-32 instruction (RV64 only).
pub open spec fn op_imm32_value(funct3: u32, a: u64, imm: u64) -> Option<u64> {
    let raw = imm as nat % 4096;
    let p = pow2(raw % 32) as int;
    let hi = raw / 32;
    if funct3 == 0 {
        Some(sext32(a + imm))
    } else if funct3 == 1 && hi == 0 {
        Some(sext32(low32(a) * p))
    } else if funct3 == 5 && hi == 0 {
        Some(sext32(low32(a) as int / p))
    } else if funct3 == 5 && hi == 0x20 {
        Some(sext32(sext(low32(a), 32) / p))
    } else {
        None
    }
}

/// Whether a BRANCH instruction is taken, or `None` where funct3 names none.
pub open spec fn branch_taken(xl: Xlen, funct3: u32, a: u64, b: u64) -> Option<bool> {
    if funct3 == 0 {
        Some(a == b)
    } else if funct3 == 1 {
        Some(a != b)
    } else if funct3 == 4 {
        Some(signed(xl, a) < signed(xl, b))
    } else if funct3 == 5 {
        Some(signed(xl, a) >= signed(xl, b))
    } else if funct3 == 6 {
        Some(a < b)
    } else if funct3 == 7 {
        Some(a >= b)
    } else {
        None
    }
}

/// The 64-bit all-ones immediate (-1) is the all-ones machine word at
/// either width.
pub proof fn lemma_minus_one_word(xl: Xlen)
    ensures
        wrap(xl, u64::MAX as int) == modulus(xl) - 1,
        signed(xl, wrap(xl, u64::MAX as int)) == -1,
{
}

pub open spec fn is_word(xl: Xlen, v: u64) -> bool {
    v < modulus(xl)
}

fn modulus_exec(xl: Xlen) -> (r: u128)
    ensures
        r == modulus(xl),
{
    match xl {
        Xlen::Rv32 => 0x1_0000_0000,
        Xlen::Rv64 => 0x1_0000_0000_0000_0000,
    }
}

fn xbits_exec(xl: Xlen) -> (r: u64)
    ensures
        r == xbits(xl),
{
    match xl {
        Xlen::Rv32 => 32,
        Xlen::Rv64 => 64,
    }
}

/// `v` reduced to a machine word.
pub fn wrap_word(xl: Xlen, v: u64) -> (r: u64)
    ensures
        r == wrap(xl, v as int),
{
    ((v as u128) % modulus_exec(xl)) as u64
}

/// `a + b` reduced to a machine word.
pub fn add_word(xl: Xlen, a: u64, b: u64) -> (r: u64)
    ensures
        r == wrap(xl, a + b),
{
    (((a as u128) + (b as u128)) % modulus_exec(xl)) as u64
}

/// `(a - b) mod m` for a power of two `m` of at most 2^64.
fn sub_mod(a: u64, b: u64, m: u128) -> (r: u128)
    requires
        m == 0x1_0000_0000 || m == 0x1_0000_0000_0000_0000,
    ensures
        r == (a - b) % (m as int),
        r < m,
{
    let r = ((a as u128) + (m - (b as u128) % m)) % m;
    proof {
        let mi = m as int;
        lemma_fundamental_div_mod(b as int, mi);
        let k = 1 + (b as int) / mi;
        assert(mi * k + (a - b) == a + (mi - (b as int) % mi)) by (nonlinear_arith)
            requires
                b == mi * ((b as int) / mi) + (b as int) % mi,
                k == 1 + (b as int) / mi,
        ;
        lemma_mod_multiples_vanish(k, a - b, mi);
    }
    r
}

/// `a - b` reduced to a machine word.
pub fn sub_word(xl: Xlen, a: u64, b: u64) -> (r: u64)
    ensures
        r == wrap(xl, a - b),
{
    sub_mod(a, b, modulus_exec(xl)) as u64
}

/// The machine word `v` read as a two's-complement number.
pub fn to_signed(xl: Xlen, v: u64) -> (r: i64)
    requires
        is_word(xl, v),
    ensures
        r == signed(xl, v),
{
    let m = modulus_exec(xl);
    if (v as u128) < m / 2 {
        v as i64
    } else {
        ((v as i128) - (m as i128)) as i64
    }
}

/// 2^s.
fn pow2_exec(s: u64) -> (r: u64)
    requires
        s < 64,
    ensures
        r == pow2(s as nat),
{
    proof {
        vstd::bits::lemma_u64_pow2_no_overflow(s as nat);
        vstd::bits::lemma_u64_shl_is_mul(1, s);
    }
    1u64 << s
}

/// `x / p`, rounded down.
fn floor_div(x: i128, p: u64) -> (r: i128)
    requires
        p > 0,
        -0x1_0000_0000_0000_0000 <= x < 0x1_0000_0000_0000_0000,
    ensures
        r == (x as int) / (p as int),
        x < 0 ==> x <= r < 0,
        x >= 0 ==> 0 <= r <= x,
{
    if x >= 0 {
        proof {
            vstd::arithmetic::div_mod::lemma_div_is_ordered_by_denominator(x as int, 1, p as int);
        }
        ((x as u128) / (p as u128)) as i128
    } else {
        let u: u128 = (-(x + 1)) as u128;
        let q: u128 = u / (p as u128);
        proof {
            let pi = p as int;
            lemma_fundamental_div_mod(u as int, pi);
            let r0 = (u as int) % pi;
            assert(x == pi * (-(q as int) - 1) + (pi - r0 - 1)) by (nonlinear_arith)
                requires
                    u == pi * (q as int) + r0,
                    x == -(u as int) - 1,
            ;
            vstd::arithmetic::div_mod::lemma_fundamental_div_mod_converse(
                x as int,
                pi,
                -(q as int) - 1,
                pi - r0 - 1,
            );
            vstd::arithmetic::div_mod::lemma_div_is_ordered_by_denominator(u as int, 1, pi);
        }
        -(q as i128) - 1
    }
}

/// `v` reduced modulo `m`, for a power of two `m` of at most 2^64 and `v` no
/// less than `-m`.
fn wrap_signed(v: i128, m: u128) -> (r: u64)
    requires
        m == 0x1_0000_0000 || m == 0x1_0000_0000_0000_0000,
        -(m as int) <= v < 0x1_0000_0000_0000_0000,
    ensures
        r == (v as int) % (m as int),
{
    let t = ((v + (m as i128)) as u128) % m;
    proof {
        vstd::arithmetic::div_mod::lemma_mod_add_multiples_vanish(v as int, m as int);
    }
    t as u64
}

/// The low 32 bits of `t`, sign-extended to a 64-bit word.
fn sext32_exec(t: u64) -> (r: u64)
    requires
        t < 0x1_0000_0000,
    ensures
        r == sext32(t as int),
        forall|v: int| v % 0x1_0000_0000 == t ==> #[trigger] sext32(v) == r,
{
    proof {
        lemma2_to64();
        lemma2_to64_rest();
        lemma_small_mod(t as nat, 0x1_0000_0000);
    }
    sign_extend(t, 32, 64)
}

fn sll_exec(xl: Xlen, a: u64, s: u64) -> (r: u64)
    requires
        s < 64,
    ensures
        r == sll(xl, a, s),
{
    let p = pow2_exec(s);
    proof {
        assert((a as int) * (p as int) <= 0xffff_ffff_ffff_ffff * 0xffff_ffff_ffff_ffff) by (
        nonlinear_arith)
            requires
                a <= 0xffff_ffff_ffff_ffffu64,
                p <= 0xffff_ffff_ffff_ffffu64,
        ;
    }
    (((a as u128) * (p as u128)) % modulus_exec(xl)) as u64
}

fn srl_exec(a: u64, s: u64) -> (r: u64)
    requires
        s < 64,
    ensures
        r == srl(a, s),
        r <= a,
{
    proof {
        vstd::bits::lemma_u64_shr_is_div(a, s);
        vstd::arithmetic::power2::lemma_pow2_pos(s as nat);
        vstd::arithmetic::div_mod::lemma_div_is_ordered_by_denominator(a as int, 1, pow2(s as nat) as int);
    }
    a >> s
}

fn sra_exec(xl: Xlen, a: u64, s: u64) -> (r: u64)
    requires
        s < 64,
        is_word(xl, a),
    ensures
        r == sra(xl, a, s),
{
    let x = to_signed(xl, a);
    proof {
        vstd::arithmetic::power2::lemma_pow2_pos(s as nat);
    }
    let q = floor_div(x as i128, pow2_exec(s));
    wrap_signed(q, modulus_exec(xl))
}

/// Result of an OP instruction, or `None` where funct3/funct7 name none.
pub fn op(xl: Xlen, funct3: u32, funct7: u32, a: u64, b: u64) -> (r: Option<u64>)
    requires
        is_word(xl, a),
        is_word(xl, b),
    ensures
        r == op_value(xl, funct3, funct7, a, b),
        r matches Some(v) ==> is_word(xl, v),
{
    let s = b % xbits_exec(xl);
    proof {
        lemma_bitwise_words(a, b);
    }
    if funct7 == 0 {
        if funct3 == 0 {
            Some(add_word(xl, a, b))
        } else if funct3 == 1 {
            Some(sll_exec(xl, a, s))
        } else if funct3 == 2 {
            Some(if to_signed(xl, a) < to_signed(xl, b) { 1u64 } else { 0u64 })
        } else if funct3 == 3 {
            Some(if a < b { 1u64 } else { 0u64 })
        } else if funct3 == 4 {
            Some(a ^ b)
        } else if funct3 == 5 {
            Some(srl_exec(a, s))
        } else if funct3 == 6 {
            Some(a | b)
        } else if funct3 == 7 {
            Some(a & b)
        } else {
            None
        }
    } else if funct7 == 0x20 {
        if funct3 == 0 {
            Some(sub_word(xl, a, b))
        } else if funct3 == 5 {
            Some(sra_exec(xl, a, s))
        } else {
            None
        }
    } else {
        None
    }
}

/// Result of an OP-IMM instruction on immediate word `imm`, or `None` where
/// funct3 and the immediate's upper bits name none.
pub fn op_imm(xl: Xlen, funct3: u32, a: u64, imm: u64) -> (r: Option<u64>)
    requires
        is_word(xl, a),
        is_word(xl, imm),
    ensures
        r == op_imm_value(xl, funct3, a, imm),
        r matches Some(v) ==> is_word(xl, v),
{
    let raw = imm % 4096;
    let s = raw % xbits_exec(xl);
    let hi = raw / xbits_exec(xl);
    proof {
        lemma_bitwise_words(a, imm);
    }
    if funct3 == 0 {
        Some(add_word(xl, a, imm))
    } else if funct3 == 1 {
        if hi == 0 {
            Some(sll_exec(xl, a, s))
        } else {
            None
        }
    } else if funct3 == 2 {
        Some(if to_signed(xl, a) < to_signed(xl, imm) { 1u64 } else { 0u64 })
    } else if funct3 == 3 {
        Some(if a < imm { 1u64 } else { 0u64 })
    } else if funct3 == 4 {
        Some(a ^ imm)
    } else if funct3 == 5 {
        if hi == 0 {
            Some(srl_exec(a, s))
        } else if hi == 1024 / xbits_exec(xl) {
            Some(sra_exec(xl, a, s))
        } else {
            None
        }
    } else if funct3 == 6 {
        Some(a | imm)
    } else {
        Some(a & imm)
    }
}

/// `sext32` of the low 32 bits of `a` shifted by `s` (0: left, 1: right
/// logical, 2: right arithmetic).
fn shift32(a: u64, s: u64, kind: u8) -> (r: u64)
    requires
        s < 32,
        kind <= 2,
    ensures
        kind == 0 ==> r == sext32(low32(a) as int * pow2(s as nat)),
        kind == 1 ==> r == sext32(low32(a) as int / pow2(s as nat) as int),
        kind == 2 ==> r == sext32(sext(low32(a), 32) / pow2(s as nat) as int),
{
    let lo = a % 0x1_0000_0000;
    let p = pow2_exec(s);
    proof {
        lemma2_to64();
        lemma2_to64_rest();
        vstd::arithmetic::power2::lemma_pow2_pos(s as nat);
        vstd::arithmetic::power2::lemma_pow2_strictly_increases(s as nat, 32);
    }
    if kind == 0 {
        assert((lo as int) * (p as int) < 0x1_0000_0000 * 0x1_0000_0000) by (nonlinear_arith)
            requires
                lo < 0x1_0000_0000u64,
                p < 0x1_0000_0000u64,
        ;
        let t = ((lo as u128) * (p as u128)) % 0x1_0000_0000;
        sext32_exec(t as u64)
    } else if kind == 1 {
        proof {
            vstd::arithmetic::div_mod::lemma_div_is_ordered_by_denominator(lo as int, 1, p as int);
            lemma_small_mod((lo / p) as nat, 0x1_0000_0000);
        }
        sext32_exec(lo / p)
    } else {
        let x: i128 = if lo < 0x8000_0000 { lo as i128 } else { (lo as i128) - 0x1_0000_0000 };
        let q = floor_div(x, p);
        sext32_exec(wrap_signed(q, 0x1_0000_0000))
    }
}

/// Result of an OP-32 instruction (RV64 only).
pub fn op32(funct3: u32, funct7: u32, a: u64, b: u64) -> (r: Option<u64>)
    ensures
        r == op32_value(funct3, funct7, a, b),
{
    let s = b % 32;
    if funct7 == 0 && funct3 == 0 {
        Some(sext32_exec((add_word(Xlen::Rv32, a, b))))
    } else if funct7 == 0x20 && funct3 == 0 {
        Some(sext32_exec(sub_word(Xlen::Rv32, a, b)))
    } else if funct7 == 0 && funct3 == 1 {
        Some(shift32(a, s, 0))
    } else if funct7 == 0 && funct3 == 5 {
        Some(shift32(a, s, 1))
    } else if funct7 == 0x20 && funct3 == 5 {
        Some(shift32(a, s, 2))
    } else {
        None
    }
}

/// Result of an OP-IMM-32 instruction (RV64 only).
pub fn op_imm32(funct3: u32, a: u64, imm: u64) -> (r: Option<u64>)
    ensures
        r == op_imm32_value(funct3, a, imm),
{
    let raw = imm % 4096;
    let s = raw % 32;
    let hi = raw / 32;
    if funct3 == 0 {
        Some(sext32_exec(add_word(Xlen::Rv32, a, imm)))
    } else if funct3 == 1 && hi == 0 {
        Some(shift32(a, s, 0))
    } else if funct3 == 5 && hi == 0 {
        Some(shift32(a, s, 1))
    } else if funct3 == 5 && hi == 0x20 {
        Some(shift32(a, s, 2))
    } else {
        None
    }
}

/// Whether a BRANCH instruction is taken, or `None` where funct3 names none.
pub fn branch(xl: Xlen, funct3: u32, a: u64, b: u64) -> (r: Option<bool>)
    requires
        is_word(xl, a),
        is_word(xl, b),
    ensures
        r == branch_taken(xl, funct3, a, b),
{
    if funct3 == 0 {
        Some(a == b)
    } else if funct3 == 1 {
        Some(a != b)
    } else if funct3 == 4 {
        Some(to_signed(xl, a) < to_signed(xl, b))
    } else if funct3 == 5 {
        Some(to_signed(xl, a) >= to_signed(xl, b))
    } else if funct3 == 6 {
        Some(a < b)
    } else if funct3 == 7 {
        Some(a >= b)
    } else {
        None
    }
}

proof fn lemma_bitwise_words(a: u64, b: u64)
    ensures
        a < 0x1_0000_0000 && b < 0x1_0000_0000 ==> (a ^ b) < 0x1_0000_0000 && (a | b) < 0x1_0000_0000
            && (a & b) < 0x1_0000_0000,
{
    assert(a < 0x1_0000_0000 && b < 0x1_0000_0000 ==> (a ^ b) < 0x1_0000_0000 && (a | b)
        < 0x1_0000_0000 && (a & b) < 0x1_0000_0000) by (bit_vector);
}

} // verus!
