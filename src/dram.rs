use vstd::arithmetic::div_mod::{lemma_div_denominator, lemma_mod_breakdown};
use vstd::arithmetic::power2::{lemma2_to64, lemma2_to64_rest, lemma_pow2_adds, lemma_pow2_pos, pow2};
use vstd::prelude::*;

use crate::alu::Xlen;
use crate::fault::Fault;

verus! {

/// Size in bytes of the default memory window.
pub const DRAM_SIZE: u64 = 0x4000;

/// Lowest address of the default memory window.
pub const DRAM_BASE: u64 = 0x8000_0000;

/// Access widths (in bits) that memory supports on a machine of word width
/// `xl`: 8, 16 and 32 always, 64 only on a 64-bit machine.
pub open spec fn is_width(xl: Xlen, size: u32) -> bool {
    size == 8 || size == 16 || size == 32 || (size == 64 && xl == Xlen::Rv64)
}

/// Whether memory of a machine of word width `xl` supports `size`-bit
/// accesses.
pub fn is_width_exec(xl: Xlen, size: u32) -> (r: bool)
    ensures
        r == is_width(xl, size),
{
    size == 8 || size == 16 || size == 32 || (size == 64 && match xl {
        Xlen::Rv32 => false,
        Xlen::Rv64 => true,
    })
}

/// Number of bytes an access of `size` bits touches.
pub open spec fn width_bytes(size: u32) -> nat {
    (size / 8) as nat
}

/// The unsigned number whose little-endian byte encoding is `s`.
pub open spec fn le_value(s: Seq<u8>) -> nat
    decreases s.len(),
{
    if s.len() == 0 {
        0
    } else {
        le_value(s.drop_last()) + (s.last() as nat) * pow2((8 * (s.len() - 1)) as nat)
    }
}

/// Byte `i` (counting from the least significant) of `v`.
pub open spec fn byte_of(v: u64, i: nat) -> u8 {
    ((v as nat / pow2(8 * i)) % 256) as u8
}

/// `mem` with the low `n` bytes of `v` written little-endian from index `idx`.
pub open spec fn stored(mem: Seq<u8>, idx: int, v: u64, n: nat) -> Seq<u8> {
    Seq::new(mem.len(), |j: int| if idx <= j < idx + n { byte_of(v, (j - idx) as nat) } else { mem[j] })
}

pub proof fn lemma_le_value_bound(s: Seq<u8>)
    ensures
        le_value(s) < pow2(8 * s.len()),
    decreases s.len(),
{
    if s.len() == 0 {
        lemma2_to64();
    } else {
        let k = (8 * (s.len() - 1)) as nat;
        lemma_le_value_bound(s.drop_last());
        lemma_pow2_adds(k, 8);
        lemma2_to64();
        assert(k + 8 == 8 * s.len());
        let p = pow2(k);
        let prev = le_value(s.drop_last());
        let b = s.last();
        assert(prev + b * p < p * 256) by (nonlinear_arith)
            requires
                prev < p,
                b <= 255,
        ;
    }
}

/// Writing the low `n` bytes of `v` little-endian and reading them back gives
/// `v` reduced modulo 2^(8n).
pub proof fn lemma_le_round_trip(v: u64, n: nat)
    requires
        n <= 8,
    ensures
        le_value(Seq::new(n, |i: int| byte_of(v, i as nat))) == v as nat % pow2(8 * n),
    decreases n,
{
    let s = Seq::new(n, |i: int| byte_of(v, i as nat));
    if n == 0 {
        lemma2_to64();
        assert(v as nat % 1 == 0);
        assert(le_value(s) == 0);
    } else {
        let k = (8 * (n - 1)) as nat;
        lemma_le_round_trip(v, (n - 1) as nat);
        assert(s.drop_last() =~= Seq::new((n - 1) as nat, |i: int| byte_of(v, i as nat)));
        lemma_pow2_pos(k);
        lemma_pow2_adds(k, 8);
        lemma2_to64();
        assert(k + 8 == 8 * n);
        lemma_mod_breakdown(v as int, pow2(k) as int, 256);
        assert(pow2(8 * n) == pow2(k) * 256);
        assert(s.last() as nat == (v as nat / pow2(k)) % 256);
        assert(le_value(s) == le_value(s.drop_last()) + (s.last() as nat) * pow2(k));
        let x = (v as nat / pow2(k)) % 256;
        assert(x * pow2(k) == pow2(k) * x) by (nonlinear_arith);
        assert(v as nat % (pow2(k) * 256) == pow2(k) * x + v as nat % pow2(k));
    }
}

/// A byte-addressable memory covering `[base, base + dram.len())`, serving a
/// machine of word width `xlen`.
#[derive(Debug)]
pub struct Dram {
    pub xlen: Xlen,
    pub base: u64,
    pub dram: Vec<u8>,
}

impl Dram {
    /// The window fits in the 64-bit address space.
    pub open spec fn wf(&self) -> bool {
        self.base + self.dram@.len() <= u64::MAX
    }

    /// All `n` bytes from `addr` lie in the window.
    pub open spec fn in_range(&self, addr: u64, n: nat) -> bool {
        self.base <= addr && addr - self.base + n <= self.dram@.len()
    }

    /// Memory of `DRAM_SIZE` bytes at `DRAM_BASE` for a 32-bit machine,
    /// holding `code` from its first byte on and zero elsewhere.
    pub fn new(code: Vec<u8>) -> (r: Dram)
        requires
            code@.len() <= DRAM_SIZE,
        ensures
            r.wf(),
            r.xlen == Xlen::Rv32,
            r.base == DRAM_BASE,
            r.dram@.len() == DRAM_SIZE,
            forall|i: int| 0 <= i < code@.len() ==> r.dram@[i] == code@[i],
            forall|i: int| code@.len() <= i < DRAM_SIZE ==> r.dram@[i] == 0,
    {
        Dram::with_region(Xlen::Rv32, DRAM_BASE, DRAM_SIZE, code)
    }

    /// Memory of `size` bytes at `base` for a machine of word width `xlen`,
    /// holding `code` from its first byte on and zero elsewhere.
    pub fn with_region(xlen: Xlen, base: u64, size: u64, code: Vec<u8>) -> (r: Dram)
        requires
            code@.len() <= size,
            base + size <= u64::MAX,
            size <= usize::MAX,
        ensures
            r.wf(),
            r.xlen == xlen,
            r.base == base,
            r.dram@.len() == size,
            forall|i: int| 0 <= i < code@.len() ==> r.dram@[i] == code@[i],
            forall|i: int| code@.len() <= i < size ==> r.dram@[i] == 0,
    {
        let mut dram = code;
        let ghost c = dram@;
        while (dram.len() as u64) < size
            invariant
                c.len() <= dram@.len() <= size,
                size <= usize::MAX,
                forall|i: int| 0 <= i < c.len() ==> dram@[i] == c[i],
                forall|i: int| c.len() <= i < dram@.len() ==> dram@[i] == 0,
            decreases size - dram@.len(),
        {
            dram.push(0);
        }
        Dram { xlen, base, dram }
    }

    /// Reads `size` bits little-endian from `addr`.
    pub fn load(&self, addr: u64, size: u32) -> (r: Result<u64, Fault>)
        requires
            self.wf(),
        ensures
            !is_width(self.xlen, size) ==> r == Err::<u64, Fault>(Fault::UnsupportedWidth),
            is_width(self.xlen, size) && !self.in_range(addr, width_bytes(size)) ==> r == Err::<u64, Fault>(
                Fault::OutOfBounds,
            ),
            is_width(self.xlen, size) && self.in_range(addr, width_bytes(size)) ==> r == Ok::<u64, Fault>(
                le_value(
                    self.dram@.subrange(
                        addr - self.base,
                        addr - self.base + width_bytes(size),
                    ),
                ) as u64,
            ),
    {
        if !is_width_exec(self.xlen, size) {
            return Err(Fault::UnsupportedWidth);
        }
        let n = (size / 8) as usize;
        if addr < self.base || addr - self.base > self.dram.len() as u64 || (self.dram.len() as u64)
            - (addr - self.base) < n as u64 {
            return Err(Fault::OutOfBounds);
        }
        let idx = (addr - self.base) as usize;
        let ghost bytes = self.dram@.subrange(idx as int, idx + n);
        let mut acc: u128 = 0;
        let mut scale: u128 = 1;
        let mut i: usize = 0;
        proof {
            lemma2_to64();
            assert(bytes.subrange(0, 0) =~= Seq::<u8>::empty());
        }
        while i < n
            invariant
                n <= 8,
                i <= n,
                idx + n <= self.dram@.len(),
                self.dram@.len() <= usize::MAX,
                bytes == self.dram@.subrange(idx as int, idx + n),
                acc == le_value(bytes.subrange(0, i as int)),
                scale == pow2(8 * i as nat),
            decreases n - i,
        {
            let ghost prefix = bytes.subrange(0, i as int);
            proof {
                lemma_le_value_bound(prefix);
                lemma_pow2_adds(8 * i as nat, 8);
                lemma2_to64();
                lemma_pow2_pos(8 * i as nat);
                if i < 8 {
                    crate::dram::lemma_pow2_mono(8 * i as nat, 56);
                }
                assert(bytes.subrange(0, i + 1).drop_last() =~= prefix);
                let b = self.dram@[idx + i];
                assert(acc + b * scale < scale * 256 && b * scale <= 255 * scale) by (nonlinear_arith)
                    requires
                        acc < scale,
                        b <= 255,
                ;
                lemma2_to64_rest();
                assert(scale <= pow2(56));
                assert(pow2(56) * 256 <= u128::MAX);
                assert(8 * i as nat + 8 == 8 * (i + 1) as nat);
            }
            acc = acc + (self.dram[idx + i] as u128) * scale;
            scale = scale * 256;
            i = i + 1;
        }
        proof {
            assert(bytes.subrange(0, n as int) =~= bytes);
            lemma_le_value_bound(bytes);
        }
        Ok(acc as u64)
    }

    /// Writes the low `size` bits of `value` little-endian from `addr`; on
    /// failure memory is left as it was.
    pub fn store(&mut self, addr: u64, size: u32, value: u64) -> (r: Result<(), Fault>)
        requires
            old(self).wf(),
        ensures
            final(self).wf(),
            final(self).base == old(self).base,
            final(self).xlen == old(self).xlen,
            !is_width(old(self).xlen, size) ==> r == Err::<(), Fault>(Fault::UnsupportedWidth),
            is_width(old(self).xlen, size) && !old(self).in_range(addr, width_bytes(size)) ==> r == Err::<
                (),
                Fault,
            >(Fault::OutOfBounds),
            r is Err ==> final(self).dram@ == old(self).dram@,
            is_width(old(self).xlen, size) && old(self).in_range(addr, width_bytes(size)) ==> r == Ok::<(), Fault>(())
                && final(self).dram@ == stored(
                old(self).dram@,
                addr - old(self).base,
                value,
                width_bytes(size),
            ),
    {
        if !is_width_exec(self.xlen, size) {
            return Err(Fault::UnsupportedWidth);
        }
        let n = (size / 8) as usize;
        if addr < self.base || addr - self.base > self.dram.len() as u64 || (self.dram.len() as u64)
            - (addr - self.base) < n as u64 {
            return Err(Fault::OutOfBounds);
        }
        let idx = (addr - self.base) as usize;
        let ghost mem0 = self.dram@;
        let mut rem: u64 = value;
        let mut i: usize = 0;
        proof {
            lemma2_to64();
            assert(value as nat / pow2(0) == value as nat);
        }
        while i < n
            invariant
                n <= 8,
                i <= n,
                idx + n <= mem0.len(),
                mem0.len() <= usize::MAX,
                self.base == old(self).base,
                self.xlen == old(self).xlen,
                mem0 == old(self).dram@,
                self.dram@.len() == mem0.len(),
                rem as nat == value as nat / pow2(8 * i as nat),
                forall|j: int|
                    0 <= j < mem0.len() ==> self.dram@[j] == if idx <= j < idx + i {
                        byte_of(value, (j - idx) as nat)
                    } else {
                        mem0[j]
                    },
            decreases n - i,
        {
            proof {
                lemma2_to64();
                lemma_pow2_pos(8 * i as nat);
                lemma_div_denominator(value as int, pow2(8 * i as nat) as int, 256);
                lemma_pow2_adds(8 * i as nat, 8);
                assert(8 * i as nat + 8 == 8 * (i + 1) as nat);
            }
            self.dram.set(idx + i, (rem % 256) as u8);
            rem = rem / 256;
            i = i + 1;
        }
        proof {
            assert(self.dram@ =~= stored(mem0, idx as int, value, n as nat));
        }
        Ok(())
    }
}

proof fn lemma_pow2_mono(a: nat, b: nat)
    requires
        a <= b,
    ensures
        pow2(a) <= pow2(b),
{
    if a < b {
        vstd::arithmetic::power2::lemma_pow2_strictly_increases(a, b);
    }
}

} // verus!
