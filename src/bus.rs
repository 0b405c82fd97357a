use vstd::prelude::*;

use vstd::arithmetic::power2::pow2;

use crate::alu::Xlen;
use crate::dram::{
    byte_of, is_width, is_width_exec, le_value, lemma_le_round_trip, stored, width_bytes, Dram,
};
use crate::fault::Fault;

verus! {

/// Routes addresses to the memory that backs them.
pub struct Bus {
    pub dram: Dram,
}

impl Bus {
    pub open spec fn wf(&self) -> bool {
        self.dram.wf()
    }

    /// Word width of the machine the bus serves.
    pub open spec fn xlen(&self) -> Xlen {
        self.dram.xlen
    }

    /// Lowest address of the memory window.
    pub open spec fn base(&self) -> u64 {
        self.dram.base
    }

    /// Contents of the memory window, from its lowest address on.
    pub open spec fn mem(&self) -> Seq<u8> {
        self.dram.dram@
    }

    /// A bus of a 32-bit machine over the default memory window, which holds
    /// `code` from its first byte on and zero elsewhere.
    pub fn new(code: Vec<u8>) -> (r: Bus)
        requires
            code@.len() <= crate::dram::DRAM_SIZE,
        ensures
            r.wf(),
            r.xlen() == Xlen::Rv32,
            r.base() == crate::dram::DRAM_BASE,
            r.mem().len() == crate::dram::DRAM_SIZE,
            forall|i: int| 0 <= i < code@.len() ==> r.mem()[i] == code@[i],
            forall|i: int| code@.len() <= i < r.mem().len() ==> r.mem()[i] == 0,
    {
        Bus::with_xlen(Xlen::Rv32, code)
    }

    /// A bus of a machine of word width `xlen` over the default memory
    /// window, which holds `code` from its first byte on and zero elsewhere.
    pub fn with_xlen(xlen: Xlen, code: Vec<u8>) -> (r: Bus)
        requires
            code@.len() <= crate::dram::DRAM_SIZE,
        ensures
            r.wf(),
            r.xlen() == xlen,
            r.base() == crate::dram::DRAM_BASE,
            r.mem().len() == crate::dram::DRAM_SIZE,
            forall|i: int| 0 <= i < code@.len() ==> r.mem()[i] == code@[i],
            forall|i: int| code@.len() <= i < r.mem().len() ==> r.mem()[i] == 0,
    {
        Bus {
            dram: Dram::with_region(
                xlen,
                crate::dram::DRAM_BASE,
                crate::dram::DRAM_SIZE,
                code,
            ),
        }
    }

    /// Reads `size` bits little-endian from `addr`.
    pub fn load(&self, addr: u64, size: u32) -> (r: Result<u64, Fault>)
        requires
            self.wf(),
        ensures
            r == load_result(self.xlen(), self.base(), self.mem(), addr, size),
    {
        if self.dram.base <= addr {
            return self.dram.load(addr, size);
        }
        if is_width_exec(self.dram.xlen, size) {
            Err(Fault::OutOfBounds)
        } else {
            Err(Fault::UnsupportedWidth)
        }
    }

    /// Writes the low `size` bits of `value` little-endian from `addr`; on
    /// failure memory is left as it was.
    pub fn store(&mut self, addr: u64, size: u32, value: u64) -> (r: Result<(), Fault>)
        requires
            old(self).wf(),
        ensures
            final(self).wf(),
            final(self).base() == old(self).base(),
            final(self).xlen() == old(self).xlen(),
            r == store_result(old(self).xlen(), old(self).base(), old(self).mem(), addr, size),
            r is Ok ==> final(self).mem() == stored(
                old(self).mem(),
                addr - old(self).base(),
                value,
                width_bytes(size),
            ),
            r is Err ==> final(self).mem() == old(self).mem(),
    {
        if self.dram.base <= addr {
            return self.dram.store(addr, size, value);
        }
        if is_width_exec(self.dram.xlen, size) {
            Err(Fault::OutOfBounds)
        } else {
            Err(Fault::UnsupportedWidth)
        }
    }
}

/// All `n` bytes from `addr` lie in the window of `mem` placed at `base`.
pub open spec fn in_window(base: u64, mem: Seq<u8>, addr: u64, n: nat) -> bool {
    base <= addr && addr - base + n <= mem.len()
}

/// What a load of `size` bits from `addr` gives.
pub open spec fn load_result(xl: Xlen, base: u64, mem: Seq<u8>, addr: u64, size: u32) -> Result<
    u64,
    Fault,
> {
    if !is_width(xl, size) {
        Err(Fault::UnsupportedWidth)
    } else if !in_window(base, mem, addr, width_bytes(size)) {
        Err(Fault::OutOfBounds)
    } else {
        Ok(le_value(mem.subrange(addr - base, addr - base + width_bytes(size))) as u64)
    }
}

/// Whether a store of `size` bits at `addr` succeeds, and why not.
pub open spec fn store_result(xl: Xlen, base: u64, mem: Seq<u8>, addr: u64, size: u32) -> Result<
    (),
    Fault,
> {
    if !is_width(xl, size) {
        Err(Fault::UnsupportedWidth)
    } else if !in_window(base, mem, addr, width_bytes(size)) {
        Err(Fault::OutOfBounds)
    } else {
        Ok(())
    }
}

/// Storing `v` with width `size` inside the window and loading the same
/// width back from the same address gives `v` masked to `size` bits.
pub proof fn lemma_store_load_round_trip(
    xl: Xlen,
    base: u64,
    mem: Seq<u8>,
    addr: u64,
    size: u32,
    v: u64,
)
    requires
        is_width(xl, size),
        in_window(base, mem, addr, width_bytes(size)),
    ensures
        store_result(xl, base, mem, addr, size) == Ok::<(), Fault>(()),
        load_result(xl, base, stored(mem, addr - base, v, width_bytes(size)), addr, size) == Ok::<
            u64,
            Fault,
        >((v as nat % pow2(size as nat)) as u64),
{
    let n = width_bytes(size);
    let lo = addr - base;
    let after = stored(mem, lo, v, n);
    assert(after.subrange(lo, lo + n) =~= Seq::new(n, |i: int| byte_of(v, i as nat)));
    lemma_le_round_trip(v, n);
    assert(8 * n == size);
}

/// A one-byte load at the window's last address succeeds; one just past the
/// window fails with `OutOfBounds`.
pub proof fn lemma_window_boundary(xl: Xlen, base: u64, mem: Seq<u8>)
    requires
        mem.len() > 0,
        base + mem.len() <= u64::MAX,
    ensures
        load_result(xl, base, mem, (base + mem.len() - 1) as u64, 8) is Ok,
        load_result(xl, base, mem, (base + mem.len()) as u64, 8) == Err::<u64, Fault>(Fault::OutOfBounds),
{
}


} // verus!
