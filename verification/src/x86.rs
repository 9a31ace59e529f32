//! Facts about the x86 encoding shared by the 32-bit and the 64-bit decoders:
//! ModR/M fields, little-endian 32-bit fields, and relative jumps.

use vstd::prelude::*;

verus! {

/// The `mod` field of a ModR/M byte (bits 6-7).
pub open spec fn modrm_mod(b: u8) -> int {
    b as int / 64
}

/// The `reg` field of a ModR/M byte (bits 3-5).
pub open spec fn modrm_reg(b: u8) -> int {
    (b as int / 8) % 8
}

/// The `r/m` field of a ModR/M byte (bits 0-2).
pub open spec fn modrm_rm(b: u8) -> int {
    b as int % 8
}

/// The `base` field of a SIB byte (bits 0-2).
pub open spec fn sib_base(b: u8) -> int {
    b as int % 8
}

/// The number of bytes taken by a ModR/M byte together with the SIB byte and
/// the displacement it calls for. `sib` is the byte after the ModR/M byte; it
/// matters only when a SIB byte is present.
pub open spec fn modrm_len(modrm: u8, sib: u8) -> nat {
    let m = modrm_mod(modrm);
    let rm = modrm_rm(modrm);
    if m == 3 {
        1
    } else if rm == 4 {
        // a SIB byte follows
        if m == 0 {
            if sib_base(sib) == 5 { 6 } else { 2 }
        } else if m == 1 {
            3
        } else {
            6
        }
    } else if m == 0 {
        if rm == 5 { 5 } else { 1 }
    } else if m == 1 {
        2
    } else {
        5
    }
}

/// A ModR/M byte is followed by a SIB byte exactly when `mod` is not 11 and
/// `r/m` is 100, then by a displacement: one byte with `mod` 01, four with
/// `mod` 10, four with `mod` 00 when `r/m` is 101 or the SIB base is 101,
/// none otherwise.
pub proof fn law_modrm_len_parts(modrm: u8, sib: u8)
    ensures
        ({
            let m = modrm / 64;
            let rm = modrm % 8;
            let has_sib: int = if m != 3 && rm == 4 { 1 } else { 0 };
            let disp: int = if m == 1 {
                1
            } else if m == 2 {
                4
            } else if m == 0 && (rm == 5 || (rm == 4 && sib % 8 == 5)) {
                4
            } else {
                0
            };
            modrm_len(modrm, sib) == 1 + has_sib + disp
        }),
{
}

/// The unsigned value of the little-endian 32-bit field at `at`.
pub open spec fn le_u32(code: Seq<u8>, at: int) -> int {
    code[at] as int + 256 * code[at + 1] as int + 65536 * code[at + 2] as int + 16777216 * code[
    at + 3] as int
}

/// The signed (two's complement) value of the little-endian 32-bit field at `at`.
pub open spec fn le_i32(code: Seq<u8>, at: int) -> int {
    let u = le_u32(code, at);
    if u >= 0x8000_0000 { u - 0x1_0000_0000 } else { u }
}

/// Whether `v` fits in a signed 32-bit field.
pub open spec fn fits_i32(v: int) -> bool {
    -0x8000_0000 <= v <= 0x7fff_ffff
}

/// The four little-endian bytes of the 32-bit field whose value is `v`,
/// taken modulo 2^32 (so a signed value is written in two's complement).
pub open spec fn field32(v: int) -> Seq<u8> {
    let u = v % 0x1_0000_0000;
    seq![
        (u % 256) as u8,
        ((u / 256) % 256) as u8,
        ((u / 65536) % 256) as u8,
        ((u / 16777216) % 256) as u8,
    ]
}

/// A `JMP rel32` (`E9` and a 32-bit displacement) placed at `from` that
/// lands on `to`, with the displacement taken modulo 2^32.
pub open spec fn jmp_rel32(from: int, to: int) -> Seq<u8> {
    seq![0xE9u8] + field32(to - (from + 5))
}

/// Reading back a 32-bit field gives the value written, modulo 2^32.
pub proof fn lemma_field32_roundtrip(v: int)
    ensures
        field32(v).len() == 4,
        le_u32(field32(v), 0) == v % 0x1_0000_0000,
        fits_i32(v) ==> le_i32(field32(v), 0) == v,
{
    let u = v % 0x1_0000_0000;
    assert(0 <= u < 0x1_0000_0000);
    let u32v = u as u32;
    assert(u32v as int == u);
    assert(u32v == (u32v % 256) + 256 * ((u32v / 256) % 256) + 65536 * ((u32v / 65536) % 256)
        + 16777216 * ((u32v / 16777216) % 256)) by (bit_vector);
    if fits_i32(v) {
        if v < 0 {
            assert(u == v + 0x1_0000_0000);
        } else {
            assert(u == v);
        }
    }
}

/// Exec counterpart of `field32`: the little-endian bytes of `v` modulo 2^32.
pub fn field32_bytes(v: i128) -> (r: Vec<u8>)
    ensures
        r@ == field32(v as int),
{
    let u: i128 = v % 0x1_0000_0000;
    let u: i128 = if u < 0 { u + 0x1_0000_0000 } else { u };
    assert(u == v as int % 0x1_0000_0000);
    let mut r: Vec<u8> = Vec::new();
    r.push((u % 256) as u8);
    r.push(((u / 256) % 256) as u8);
    r.push(((u / 65536) % 256) as u8);
    r.push(((u / 16777216) % 256) as u8);
    assert(r@ =~= field32(v as int));
    r
}

/// Exec counterpart of `le_i32`.
pub fn read_le_i32(code: &[u8], at: usize) -> (r: i64)
    requires
        at + 4 <= code@.len(),
    ensures
        r as int == le_i32(code@, at as int),
        fits_i32(r as int),
{
    let u: i64 = code[at] as i64 + 256 * code[at + 1] as i64 + 65536 * code[at + 2] as i64
        + 16777216 * code[at + 3] as i64;
    if u >= 0x8000_0000 {
        u - 0x1_0000_0000
    } else {
        u
    }
}

} // verus!
