//! Classification of a file by the first bytes of its contents, or by its
//! permission bits.

use vstd::prelude::*;

verus! {

/// Number of leading bytes of a file that the classification reads.
pub const HEAD_LEN: usize = 4;

/// Permission bit that lets a file's owner execute it.
pub const OWNER_EXECUTE: u32 = 0o100;

/// The bytes at offsets 1, 2 and 3 spell `ELF`. The byte at offset 0 is not
/// looked at, and a head of fewer than four bytes never matches.
pub open spec fn elf_magic(head: Seq<u8>) -> bool {
    &&& head.len() >= 4
    &&& head[1] == 0x45u8
    &&& head[2] == 0x4cu8
    &&& head[3] == 0x46u8
}

/// The owner-execute bit is set in `mode`.
pub open spec fn owner_may_execute(mode: u32) -> bool {
    mode & 0o100u32 != 0
}

/// Tells whether `head`, the bytes read from the start of a file, carry the
/// ELF signature. A file that could not be opened or read has an empty head
/// and is no match.
pub fn is_elf(head: &[u8]) -> (elf: bool)
    ensures
        elf == elf_magic(head@),
{
    head.len() >= HEAD_LEN && head[1] == 0x45 && head[2] == 0x4c && head[3] == 0x46
}

/// Tells whether the permission bits `mode` let the owner execute the file.
pub fn is_executable(mode: u32) -> (exec: bool)
    ensures
        exec == owner_may_execute(mode),
{
    mode & OWNER_EXECUTE != 0
}

} // verus!
