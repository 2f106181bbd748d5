//! ELF64 image validation and program-header parsing.
//!
//! Only static executables are supported: the image must carry the ELF
//! magic, be 64-bit, little-endian, and of type executable; its
//! program-header table must lie inside the image. Anything else is
//! `InvalidHeader`.

use vstd::prelude::*;

use crate::ramdisk::copy_range;
use vstd::bytes::spec_u16_from_le_bytes;
use vstd::bytes::spec_u64_from_le_bytes;
use vstd::bytes::u16_from_le_bytes;
use vstd::bytes::u64_from_le_bytes;

verus! {

#[derive(PartialEq, Eq, Structural, Clone, Copy, Debug)]
pub enum LoadingError {
    InvalidHeader,
    /// A loadable segment cannot be placed: its file window lies outside
    /// the image, its span reaches the initial stack or the kernel half,
    /// or it shares a page with another loadable segment.
    UnloadableSegment,
    /// Physical memory ran out while loading segments or the stack.
    OutOfMemory,
    /// The argument strings do not fit the initial stack page.
    ArgumentsTooLong,
}

/// One program header; `segment_type` carries both p_type (low half) and
/// p_flags (high half), as the 64-bit layout packs them.
#[derive(PartialEq, Eq, Structural, Clone, Copy, Debug)]
pub struct ProgramHeaderEntry {
    pub segment_type: u64,
    pub offset: u64,
    pub virtual_address: u64,
    pub unused: u64,
    pub image_size: u64,
    pub mem_size: u64,
    pub align: u64,
}

/// Bytes of one program-header entry as this kernel reads it.
pub const PHDR_BYTES: u64 = 56;

pub open spec fn spec_u64_at(b: Seq<u8>, off: int) -> u64 {
    spec_u64_from_le_bytes(b.subrange(off, off + 8))
}

pub open spec fn spec_u16_at(b: Seq<u8>, off: int) -> u16 {
    spec_u16_from_le_bytes(b.subrange(off, off + 2))
}

/// The fixed header checks: magic `\x7fELF`, 64-bit, little-endian,
/// executable type.
pub open spec fn elf_magic_ok(b: Seq<u8>) -> bool {
    &&& b.len() >= 0x40
    &&& b[0] == 0x7fu8
    &&& b[1] == 0x45u8
    &&& b[2] == 0x4cu8
    &&& b[3] == 0x46u8
    &&& b[4] == 2u8
    &&& b[5] == 1u8
    &&& b[0x10] == 2u8
}

pub open spec fn elf_ph_off(b: Seq<u8>) -> int {
    spec_u64_at(b, 0x20) as int
}

pub open spec fn elf_ph_size(b: Seq<u8>) -> int {
    spec_u16_at(b, 0x36) as int
}

pub open spec fn elf_ph_num(b: Seq<u8>) -> int {
    spec_u16_at(b, 0x38) as int
}

/// The program entry point (e_entry).
pub open spec fn elf_entry(b: Seq<u8>) -> u64 {
    spec_u64_at(b, 0x18)
}

/// A loadable image: sound fixed header, program headers big enough, and
/// the whole header table inside the image.
pub open spec fn elf_layout_ok(b: Seq<u8>) -> bool {
    &&& elf_magic_ok(b)
    &&& elf_ph_size(b) >= PHDR_BYTES
    &&& elf_ph_off(b) + elf_ph_num(b) * elf_ph_size(b) <= b.len()
}

/// The program header at byte offset `base`.
pub open spec fn spec_phdr(b: Seq<u8>, base: int) -> ProgramHeaderEntry {
    ProgramHeaderEntry {
        segment_type: spec_u64_at(b, base),
        offset: spec_u64_at(b, base + 8),
        virtual_address: spec_u64_at(b, base + 16),
        unused: spec_u64_at(b, base + 24),
        image_size: spec_u64_at(b, base + 32),
        mem_size: spec_u64_at(b, base + 40),
        align: spec_u64_at(b, base + 48),
    }
}

fn read_u64_at(b: &Vec<u8>, off: usize) -> (r: u64)
    requires
        off + 8 <= b@.len(),
    ensures
        r == spec_u64_at(b@, off as int),
{
    let bytes = copy_range(b, off, 8);
    u64_from_le_bytes(bytes.as_slice())
}

fn read_u16_at(b: &Vec<u8>, off: usize) -> (r: u16)
    requires
        off + 2 <= b@.len(),
    ensures
        r == spec_u16_at(b@, off as int),
{
    let bytes = copy_range(b, off, 2);
    u16_from_le_bytes(bytes.as_slice())
}

/// Validates the image and reads its program-header table. Exactly the
/// sound images parse: anything malformed is `InvalidHeader`.
pub fn parse_program_headers(binary: &Vec<u8>) -> (r: Result<Vec<ProgramHeaderEntry>, LoadingError>)
    ensures
        match r {
            Result::Err(e) => e == LoadingError::InvalidHeader && !elf_layout_ok(binary@),
            Result::Ok(v) => {
                &&& elf_layout_ok(binary@)
                &&& v@.len() == elf_ph_num(binary@)
                &&& forall|i: int|
                    0 <= i < v@.len() ==> #[trigger] v@[i] == spec_phdr(
                        binary@,
                        elf_ph_off(binary@) + i * elf_ph_size(binary@),
                    )
            },
        },
{
    let len: usize = binary.len();
    if len < 0x40 {
        return Result::Err(LoadingError::InvalidHeader);
    }
    if !(binary[0] == 0x7f && binary[1] == 0x45 && binary[2] == 0x4c && binary[3] == 0x46
        && binary[4] == 2 && binary[5] == 1 && binary[0x10] == 2) {
        return Result::Err(LoadingError::InvalidHeader);
    }
    let header_start: u64 = read_u64_at(binary, 0x20);
    let header_size: u64 = read_u16_at(binary, 0x36) as u64;
    let header_num: u64 = read_u16_at(binary, 0x38) as u64;
    if header_size < PHDR_BYTES {
        return Result::Err(LoadingError::InvalidHeader);
    }
    if header_start > len as u64 {
        proof {
            assert(elf_ph_num(binary@) * elf_ph_size(binary@) >= 0) by (nonlinear_arith)
                requires elf_ph_num(binary@) >= 0, elf_ph_size(binary@) >= 0;
        }
        return Result::Err(LoadingError::InvalidHeader);
    }
    proof {
        assert(header_num * header_size <= 0xffff * 0xffffu64) by (nonlinear_arith)
            requires 0 <= header_num <= 0xffff, 0 <= header_size <= 0xffff;
    }
    if header_num * header_size > len as u64 - header_start {
        return Result::Err(LoadingError::InvalidHeader);
    }
    let mut v: Vec<ProgramHeaderEntry> = Vec::new();
    let mut i: u64 = 0;
    while i < header_num
        invariant
            len == binary@.len(),
            elf_layout_ok(binary@),
            header_start == elf_ph_off(binary@),
            header_size == elf_ph_size(binary@),
            header_num == elf_ph_num(binary@),
            header_start + header_num * header_size <= len,
            0 <= i <= header_num,
            v@.len() == i,
            forall|j: int|
                0 <= j < i ==> #[trigger] v@[j] == spec_phdr(
                    binary@,
                    elf_ph_off(binary@) + j * elf_ph_size(binary@),
                ),
        decreases header_num - i,
    {
        proof {
            assert(i * header_size + header_size <= header_num * header_size) by (nonlinear_arith)
                requires 0 <= i < header_num, header_size >= 0;
            assert(i * header_size >= 0) by (nonlinear_arith)
                requires i >= 0, header_size >= 0;
        }
        let base: usize = (header_start + i * header_size) as usize;
        let entry = ProgramHeaderEntry {
            segment_type: read_u64_at(binary, base),
            offset: read_u64_at(binary, base + 8),
            virtual_address: read_u64_at(binary, base + 16),
            unused: read_u64_at(binary, base + 24),
            image_size: read_u64_at(binary, base + 32),
            mem_size: read_u64_at(binary, base + 40),
            align: read_u64_at(binary, base + 48),
        };
        v.push(entry);
        i = i + 1;
    }
    Result::Ok(v)
}

/// Reads the entry point of a sound image.
pub fn entry_point(binary: &Vec<u8>) -> (r: u64)
    requires
        elf_magic_ok(binary@),
    ensures
        r == elf_entry(binary@),
{
    read_u64_at(binary, 0x18)
}

} // verus!
