use vstd::prelude::*;

use crate::dram::{DRAM_BASE, DRAM_SIZE};

verus! {

/// Program-header type of a segment whose bytes are loaded into memory.
pub const PT_LOAD: u32 = 1;

/// A program header as the loader reads it: type, file offset, size in the
/// file, physical address.
pub type Header = (u32, u64, u64, u64);

/// Why an executable image could not be placed in memory.
#[derive(Debug, Clone, Copy, PartialEq, Eq, Structural)]
pub enum LoadError {
    /// The bytes are not an ELF file that can be parsed.
    Parse,
    /// A loadable segment reaches past the end of the file.
    SegmentOutOfFile,
    /// A loadable segment does not fit in the memory window.
    SegmentOutOfMemory,
}

/// The program headers of the ELF file `bytes`, or `None` where it does not
/// parse.
pub uninterp spec fn elf_program_headers(bytes: Seq<u8>) -> Option<Seq<Header>>;

/// Relies on goblin::elf::Elf::parse, which reads the ELF file header and
/// program header table from the bytes alone; each header is handed on as
/// its type, offset, file size and physical address.
#[verifier::external_body]
fn program_headers(bytes: &Vec<u8>) -> (r: Option<Vec<Header>>)
    ensures
        match r {
            Some(v) => elf_program_headers(bytes@) == Some(v@),
            None => elf_program_headers(bytes@) is None,
        },
{
    match goblin::elf::Elf::parse(bytes) {
        Ok(elf) => Some(
            elf.program_headers.iter().map(|ph| (ph.p_type, ph.p_offset, ph.p_filesz, ph.p_paddr)).collect(),
        ),
        Err(_) => None,
    }
}

/// Why header `h` cannot be placed, given a file of `file_len` bytes.
pub open spec fn segment_error(file_len: nat, h: Header) -> Option<LoadError> {
    if h.0 != PT_LOAD {
        None
    } else if h.1 + h.2 > file_len {
        Some(LoadError::SegmentOutOfFile)
    } else if h.3 < DRAM_BASE || h.3 - DRAM_BASE + h.2 > DRAM_SIZE {
        Some(LoadError::SegmentOutOfMemory)
    } else {
        None
    }
}

/// `img` with the bytes of loadable segment `h` copied from `bytes` to the
/// segment's place in the memory window.
pub open spec fn place(img: Seq<u8>, bytes: Seq<u8>, h: Header) -> Seq<u8> {
    if h.0 != PT_LOAD {
        img
    } else {
        let start = h.3 - DRAM_BASE;
        Seq::new(
            img.len(),
            |j: int| if start <= j < start + h.2 { bytes[h.1 + (j - start)] } else { img[j] },
        )
    }
}

/// The memory image that headers `hs` describe: zero, with each loadable
/// segment copied in, in order; or the error of the first segment that
/// cannot be placed.
pub open spec fn load_image(bytes: Seq<u8>, hs: Seq<Header>) -> Result<Seq<u8>, LoadError>
    decreases hs.len(),
{
    if hs.len() == 0 {
        Ok(Seq::new(DRAM_SIZE as nat, |j: int| 0u8))
    } else {
        match load_image(bytes, hs.drop_last()) {
            Err(e) => Err(e),
            Ok(img) => match segment_error(bytes.len(), hs.last()) {
                Some(e) => Err(e),
                None => Ok(place(img, bytes, hs.last())),
            },
        }
    }
}

proof fn lemma_error_persists(bytes: Seq<u8>, hs: Seq<Header>, k: int)
    requires
        0 <= k <= hs.len(),
        load_image(bytes, hs.subrange(0, k)) is Err,
    ensures
        load_image(bytes, hs) == load_image(bytes, hs.subrange(0, k)),
    decreases hs.len() - k,
{
    if k < hs.len() {
        assert(hs.subrange(0, k + 1).drop_last() =~= hs.subrange(0, k));
        lemma_error_persists(bytes, hs, k + 1);
    } else {
        assert(hs.subrange(0, k) =~= hs);
    }
}

/// Builds the memory image of file `bytes` from its program headers `hs`.
pub fn place_segments(bytes: &Vec<u8>, hs: &Vec<Header>) -> (r: Result<Vec<u8>, LoadError>)
    ensures
        match r {
            Ok(img) => load_image(bytes@, hs@) == Ok::<Seq<u8>, LoadError>(img@),
            Err(e) => load_image(bytes@, hs@) == Err::<Seq<u8>, LoadError>(e),
        },
{
    let mut img: Vec<u8> = Vec::new();
    while (img.len() as u64) < DRAM_SIZE
        invariant
            img@.len() <= DRAM_SIZE,
            forall|j: int| 0 <= j < img@.len() ==> img@[j] == 0,
        decreases DRAM_SIZE - img@.len(),
    {
        img.push(0);
    }
    proof {
        assert(hs@.subrange(0, 0) =~= Seq::<Header>::empty());
        assert(img@ =~= Seq::new(DRAM_SIZE as nat, |j: int| 0u8));
    }
    let mut k: usize = 0;
    while k < hs.len()
        invariant
            k <= hs@.len(),
            img@.len() == DRAM_SIZE,
            load_image(bytes@, hs@.subrange(0, k as int)) == Ok::<Seq<u8>, LoadError>(img@),
        decreases hs@.len() - k,
    {
        let h = hs[k];
        proof {
            assert(hs@.subrange(0, k + 1).drop_last() =~= hs@.subrange(0, k as int));
            assert(hs@.subrange(0, k + 1).last() == h);
        }
        if h.0 == PT_LOAD {
            let (off, len, paddr) = (h.1, h.2, h.3);
            if len > bytes.len() as u64 || off > bytes.len() as u64 - len {
                proof {
                    lemma_error_persists(bytes@, hs@, k + 1);
                }
                return Err(LoadError::SegmentOutOfFile);
            }
            if paddr < DRAM_BASE || paddr - DRAM_BASE > DRAM_SIZE || len > DRAM_SIZE - (paddr
                - DRAM_BASE) {
                proof {
                    lemma_error_persists(bytes@, hs@, k + 1);
                }
                return Err(LoadError::SegmentOutOfMemory);
            }
            let start = (paddr - DRAM_BASE) as usize;
            let off_us = off as usize;
            let ghost img0 = img@;
            let mut j: usize = 0;
            while (j as u64) < len
                invariant
                    j <= len,
                    start + len <= DRAM_SIZE,
                    off + len <= bytes@.len(),
                    off_us == off,
                    bytes@.len() <= usize::MAX,
                    img@.len() == img0.len(),
                    img0.len() == DRAM_SIZE,
                    forall|x: int|
                        0 <= x < img0.len() ==> img@[x] == if start <= x < start + j {
                            bytes@[off + (x - start)]
                        } else {
                            img0[x]
                        },
                decreases len - j,
            {
                img.set(start + j, bytes[off_us + j]);
                j = j + 1;
            }
            proof {
                assert(img@ =~= place(img0, bytes@, h));
            }
        }
        k = k + 1;
    }
    proof {
        assert(hs@.subrange(0, hs@.len() as int) =~= hs@);
    }
    Ok(img)
}

/// Parses the ELF file `bytes` and builds the memory image its loadable
/// segments describe.
pub fn load_elf(bytes: &Vec<u8>) -> (r: Result<Vec<u8>, LoadError>)
    ensures
        match elf_program_headers(bytes@) {
            None => r == Err::<Vec<u8>, LoadError>(LoadError::Parse),
            Some(hs) => match r {
                Ok(img) => load_image(bytes@, hs) == Ok::<Seq<u8>, LoadError>(img@),
                Err(e) => load_image(bytes@, hs) == Err::<Seq<u8>, LoadError>(e),
            },
        },
{
    match program_headers(bytes) {
        Some(hs) => place_segments(bytes, &hs),
        None => Err(LoadError::Parse),
    }
}

} // verus!
