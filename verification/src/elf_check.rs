//! Whether the ELF parser can read a file on this host.
//!
//! Reading the dynamic symbols of an ELF file sizes them from its GNU hash
//! table, and that reading adds and multiplies sizes taken from the file in
//! the host's address width. With 64-bit addresses these sums cannot
//! overflow; with 32-bit ones they can on crafted input. `elf_parse_safe`
//! accepts a file on a 32-bit host when it is not an ELF file (the parser
//! refuses it by its magic), or when it is a 32-bit little-endian ELF file
//! whose GNU hash table, found as the parser finds it (the first
//! `PT_DYNAMIC` segment, the last `DT_GNU_HASH` entry before `DT_NULL`,
//! mapped to a file offset by the first `PT_LOAD` segment that holds it),
//! has sizes for which these sums stay within 32 bits.

use vstd::prelude::*;
use crate::x86::le_u32;

verus! {

/// `PT_LOAD`.
pub const PT_LOAD: u64 = 1;
/// `PT_DYNAMIC`.
pub const PT_DYNAMIC: u64 = 2;
/// `DT_GNU_HASH`.
pub const DT_GNU_HASH: u64 = 0x6fff_fef5;

/// The little-endian 16-bit value at `at`.
pub open spec fn le_u16(d: Seq<u8>, at: int) -> int {
    d[at] as int + 256 * d[at + 1] as int
}

/// Whether `d` starts with the ELF magic `7F "ELF"`.
pub open spec fn has_elf_magic(d: Seq<u8>) -> bool {
    d.len() >= 4 && d[0] == 0x7f && d[1] == 0x45 && d[2] == 0x4c && d[3] == 0x46
}

/// The index of the first program header from `i` on of type `ty`, among
/// the `phnum` 32-byte headers at `phoff`.
pub open spec fn first_phdr(d: Seq<u8>, phoff: int, phnum: int, ty: int, i: int) -> Option<int>
    decreases phnum - i,
{
    if i >= phnum || i < 0 {
        None
    } else if le_u32(d, phoff + 32 * i) == ty {
        Some(i)
    } else {
        first_phdr(d, phoff, phnum, ty, i + 1)
    }
}

/// The file offset of address `addr`: in the first `PT_LOAD` segment from
/// the `i`-th header on whose memory holds it, and none where that offset
/// does not fit in 32 bits.
pub open spec fn vm_offset(d: Seq<u8>, phoff: int, phnum: int, addr: int, i: int) -> Option<int>
    decreases phnum - i,
{
    if i >= phnum || i < 0 {
        None
    } else {
        let h = phoff + 32 * i;
        let vaddr = le_u32(d, h + 8);
        if le_u32(d, h) == PT_LOAD && addr >= vaddr && addr - vaddr < le_u32(d, h + 20) {
            let o = le_u32(d, h + 4) + (addr - vaddr);
            if o <= u32::MAX {
                Some(o)
            } else {
                None
            }
        } else {
            vm_offset(d, phoff, phnum, addr, i + 1)
        }
    }
}

/// The value of the last `DT_GNU_HASH` entry among the `count` 8-byte
/// dynamic entries at `dynoff`, from the `j`-th on and before `DT_NULL`;
/// `acc` when there is none.
pub open spec fn gnu_hash_entry(d: Seq<u8>, dynoff: int, count: int, j: int, acc: Option<int>) -> Option<int>
    decreases count - j,
{
    if j >= count || j < 0 {
        acc
    } else {
        let tag = le_u32(d, dynoff + 8 * j);
        if tag == 0 {
            acc
        } else if tag == DT_GNU_HASH {
            gnu_hash_entry(d, dynoff, count, j + 1, Some(le_u32(d, dynoff + 8 * j + 4)))
        } else {
            gnu_hash_entry(d, dynoff, count, j + 1, acc)
        }
    }
}

/// The largest of the `n` 32-bit buckets at `bo`, from the `k`-th on, and `acc`.
pub open spec fn bucket_max(d: Seq<u8>, bo: int, n: int, k: int, acc: int) -> int
    decreases n - k,
{
    if k >= n || k < 0 {
        acc
    } else {
        let v = le_u32(d, bo + 4 * k);
        bucket_max(d, bo, n, k + 1, if acc < v { v } else { acc })
    }
}

/// Whether the GNU hash table at file offset `o` of `d` is read without an
/// address sum beyond `usize::MAX`. A table the parser stops reading (too
/// short, or with a zero count) is read safely.
pub open spec fn gnu_table_fits(d: Seq<u8>, o: int) -> bool {
    let len = d.len() as int;
    if o > usize::MAX {
        false
    } else if o + 12 > len {
        true
    } else {
        let buckets = le_u32(d, o);
        let min_chain = le_u32(d, o + 4);
        let bloom = le_u32(d, o + 8);
        if buckets == 0 || min_chain == 0 || bloom == 0 {
            true
        } else if o + 16 + 4 * bloom > usize::MAX {
            false
        } else {
            let bo = o + 16 + 4 * bloom;
            if bo + 4 * buckets > len {
                true
            } else {
                let max_chain = bucket_max(d, bo, buckets, 0, 0);
                max_chain < min_chain || (bo + 4 * buckets + 4 * (max_chain - min_chain) <= usize::MAX
                    && max_chain + len <= usize::MAX)
            }
        }
    }
}

/// Whether a 32-bit little-endian ELF file `d`, whose headers lie within
/// it, has a GNU hash table that is read safely (or none).
pub open spec fn elf32_gnu_hash_fits(d: Seq<u8>) -> bool {
    let phoff = le_u32(d, 28);
    let phnum = le_u16(d, 44);
    let len = d.len() as int;
    &&& d.len() >= 52
    &&& phoff + 32 * phnum <= len
    &&& match first_phdr(d, phoff, phnum, PT_DYNAMIC as int, 0) {
        None => true,
        Some(i) => {
            let h = phoff + 32 * i;
            let dynoff = le_u32(d, h + 4);
            let filesz = le_u32(d, h + 16);
            &&& filesz == 0 || dynoff + filesz <= len
            &&& filesz == 0 || match gnu_hash_entry(d, dynoff, filesz / 8, 0, None) {
                None => true,
                Some(addr) => match vm_offset(d, phoff, phnum, addr, 0) {
                    None => true,
                    Some(o) => gnu_table_fits(d, o),
                },
            }
        },
    }
}

/// Whether the ELF parser reads `d` without overflow on this host: always
/// with 64-bit addresses; with 32-bit ones, when `d` is not an ELF file, or
/// is a 32-bit little-endian one whose GNU hash table fits.
pub open spec fn elf_parse_safe(d: Seq<u8>) -> bool {
    ||| usize::BITS == 64
    ||| !has_elf_magic(d)
    ||| (d.len() >= 6 && d[4] == 1 && d[5] == 1 && elf32_gnu_hash_fits(d))
}

fn read_u32(d: &[u8], at: usize) -> (r: u64)
    requires
        at + 4 <= d@.len(),
    ensures
        r == le_u32(d@, at as int),
        r <= u32::MAX,
{
    d[at] as u64 + 256 * d[at + 1] as u64 + 65536 * d[at + 2] as u64 + 16777216 * d[at + 3] as u64
}

/// The `first_phdr` search from the start.
fn find_phdr(d: &[u8], phoff: u64, phnum: u64, ty: u64) -> (r: Option<u64>)
    requires
        d@.len() <= usize::MAX,
        phoff + 32 * phnum <= d@.len(),
    ensures
        match first_phdr(d@, phoff as int, phnum as int, ty as int, 0) {
            Some(i) => r == Some(i as u64) && 0 <= i < phnum,
            None => r is None,
        },
{
    let mut i: u64 = 0;
    while i < phnum
        invariant
            d@.len() <= usize::MAX,
            phoff + 32 * phnum <= d@.len(),
            i <= phnum,
            first_phdr(d@, phoff as int, phnum as int, ty as int, 0) == first_phdr(d@, phoff as int, phnum as int, ty as int, i as int),
        decreases phnum - i,
    {
        if read_u32(d, (phoff + 32 * i) as usize) == ty {
            return Some(i);
        }
        i = i + 1;
    }
    None
}

/// The `vm_offset` search from the start.
fn file_offset(d: &[u8], phoff: u64, phnum: u64, addr: u64) -> (r: Option<u64>)
    requires
        d@.len() <= usize::MAX,
        phoff + 32 * phnum <= d@.len(),
    ensures
        match vm_offset(d@, phoff as int, phnum as int, addr as int, 0) {
            Some(o) => r == Some(o as u64) && 0 <= o <= u32::MAX,
            None => r is None,
        },
{
    let mut i: u64 = 0;
    while i < phnum
        invariant
            d@.len() <= usize::MAX,
            phoff + 32 * phnum <= d@.len(),
            i <= phnum,
            vm_offset(d@, phoff as int, phnum as int, addr as int, 0) == vm_offset(d@, phoff as int, phnum as int, addr as int, i as int),
        decreases phnum - i,
    {
        let h = (phoff + 32 * i) as usize;
        let vaddr = read_u32(d, h + 8);
        if read_u32(d, h) == PT_LOAD && addr >= vaddr && addr - vaddr < read_u32(d, h + 20) {
            let o = read_u32(d, h + 4) + (addr - vaddr);
            if o <= u32::MAX as u64 {
                return Some(o);
            } else {
                return None;
            }
        }
        i = i + 1;
    }
    None
}

/// The `gnu_hash_entry` scan from the start.
fn find_gnu_hash(d: &[u8], dynoff: u64, count: u64) -> (r: Option<u64>)
    requires
        d@.len() <= usize::MAX,
        dynoff + 8 * count <= d@.len(),
    ensures
        match gnu_hash_entry(d@, dynoff as int, count as int, 0, None) {
            Some(a) => r == Some(a as u64) && 0 <= a <= u32::MAX,
            None => r is None,
        },
{
    let mut j: u64 = 0;
    let mut acc: Option<u64> = None;
    while j < count
        invariant
            d@.len() <= usize::MAX,
            dynoff + 8 * count <= d@.len(),
            j <= count,
            acc matches Some(a) ==> a <= u32::MAX,
            gnu_hash_entry(d@, dynoff as int, count as int, 0, None) == gnu_hash_entry(
                d@,
                dynoff as int,
                count as int,
                j as int,
                match acc {
                    Some(a) => Some(a as int),
                    None => None,
                },
            ),
        decreases count - j,
    {
        let at = (dynoff + 8 * j) as usize;
        let tag = read_u32(d, at);
        if tag == 0 {
            return acc;
        }
        if tag == DT_GNU_HASH {
            acc = Some(read_u32(d, at + 4));
        }
        j = j + 1;
    }
    acc
}

/// The `bucket_max` of the `n` buckets at `bo`.
fn max_bucket(d: &[u8], bo: u64, n: u64) -> (r: u64)
    requires
        d@.len() <= usize::MAX,
        bo + 4 * n <= d@.len(),
    ensures
        r == bucket_max(d@, bo as int, n as int, 0, 0),
        r <= u32::MAX,
{
    let mut k: u64 = 0;
    let mut acc: u64 = 0;
    while k < n
        invariant
            d@.len() <= usize::MAX,
            bo + 4 * n <= d@.len(),
            k <= n,
            acc <= u32::MAX,
            bucket_max(d@, bo as int, n as int, 0, 0) == bucket_max(d@, bo as int, n as int, k as int, acc as int),
        decreases n - k,
    {
        let v = read_u32(d, (bo + 4 * k) as usize);
        if acc < v {
            acc = v;
        }
        k = k + 1;
    }
    acc
}

/// Whether the GNU hash table at `o` is read safely: `gnu_table_fits`.
fn table_fits(d: &[u8], o: u64) -> (b: bool)
    requires
        o <= u32::MAX,
    ensures
        b == gnu_table_fits(d@, o as int),
{
    let len = d.len() as u128;
    let max = usize::MAX as u128;
    if o as u128 > max {
        return false;
    }
    if o as u128 + 12 > len {
        return true;
    }
    let buckets = read_u32(d, o as usize);
    let min_chain = read_u32(d, o as usize + 4);
    let bloom = read_u32(d, o as usize + 8);
    if buckets == 0 || min_chain == 0 || bloom == 0 {
        return true;
    }
    if o as u128 + 16 + 4 * bloom as u128 > max {
        return false;
    }
    let bo = o as u128 + 16 + 4 * bloom as u128;
    if bo + 4 * buckets as u128 > len {
        return true;
    }
    let max_chain = max_bucket(d, bo as u64, buckets);
    if max_chain < min_chain {
        return true;
    }
    bo + 4 * buckets as u128 + 4 * (max_chain - min_chain) as u128 <= max && max_chain as u128 + len <= max
}

/// Whether the ELF parser reads `d` without overflow on this host.
pub fn elf_parse_check(d: &[u8]) -> (b: bool)
    ensures
        b == elf_parse_safe(d@),
{
    if usize::BITS == 64 {
        return true;
    }
    if !(d.len() >= 4 && d[0] == 0x7f && d[1] == 0x45 && d[2] == 0x4c && d[3] == 0x46) {
        return true;
    }
    if !(d.len() >= 52 && d[4] == 1 && d[5] == 1) {
        return false;
    }
    let phoff = read_u32(d, 28);
    let phnum = d[44] as u64 + 256 * d[45] as u64;
    if phoff as u128 + 32 * phnum as u128 > d.len() as u128 {
        return false;
    }
    let i = match find_phdr(d, phoff, phnum, PT_DYNAMIC) {
        None => return true,
        Some(i) => i,
    };
    let h = (phoff + 32 * i) as usize;
    let dynoff = read_u32(d, h + 4);
    let filesz = read_u32(d, h + 16);
    if filesz == 0 {
        return true;
    }
    if dynoff as u128 + filesz as u128 > d.len() as u128 {
        return false;
    }
    let count = filesz / 8;
    let addr = match find_gnu_hash(d, dynoff, count) {
        None => return true,
        Some(a) => a,
    };
    match file_offset(d, phoff, phnum, addr) {
        None => true,
        Some(o) => table_fits(d, o),
    }
}

} // verus!
