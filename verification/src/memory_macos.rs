//! Hooking and binding of game functions on macOS (64-bit x86 game binary).
//!
//! As on Linux, a direct hook patches the prologue with a jump to the
//! replacement and moves the overwritten instructions to a trampoline. On
//! x86-64 a `JMP rel32` reaches only +/-2GB, so a 14-byte absolute jump
//! (`JMP [RIP+0]` and the 8-byte address) is used beyond that, the trampoline
//! is placed within 2GB of the function, and RIP-relative operands of the
//! moved instructions are adjusted. Indirect hooks rewrite Mach-O symbol
//! pointers. The application allocates memory and performs the writes.

use vstd::prelude::*;
use std::marker::PhantomData;
use crate::memory_linux::{
    prepend, is_alu_al_imm8, is_alu_eax_imm32, is_alu_modrm, nops, BoundFnModel, HookRecord, after_bind,
    after_hook, after_unhook, bind_outcome, can_hook, original_fn, record_of, refusal_matches,
    restores, unhook_outcome,
};
use crate::process_macos::{MachSymbols, macho_symbol_lookup, stub_pointer_lookup};
use crate::memory_linux::{HookFailureKind, first_found};
use crate::process_linux::opt_str_view;
use crate::x86::{
    le_u32, lemma_field32_roundtrip, field32, field32_bytes, fits_i32, le_i32, modrm_len, modrm_mod, modrm_reg, modrm_rm, read_le_i32,
};

pub use crate::memory_linux::{
    BindError, BranchOutOfRange, HookError, HookFailure, HookPatch, HookSite, OriginalFn,
    PrologueError, Restore, UnhookError, Value, ValueLookup,
};

verus! {

/// Size of a `JMP rel32`.
pub const JMP_REL32_SIZE: usize = 5;

/// Size of an absolute jump: `FF 25 00 00 00 00` and an 8-byte address.
pub const JMP_ABS64_SIZE: usize = 14;

/// Upper bound on the prologue bytes the scan may consider.
pub const MAX_PROLOGUE_COPY: usize = 24;

/// Reach of a 32-bit displacement.
pub const REL32_RANGE: u64 = 0x7FFF_FFFF;

/// Whether a `JMP rel32` ending at `from + 5` reaches `to`.
pub open spec fn rel32_reaches(from: int, to: int) -> bool {
    let d = to - (from + JMP_REL32_SIZE);
    -(REL32_RANGE as int) <= d <= REL32_RANGE
}

/// The size of the jump from `from` to `to`: a `JMP rel32` when it reaches,
/// the absolute jump otherwise.
pub open spec fn jmp_size(from: int, to: int) -> usize {
    if rel32_reaches(from, to) {
        JMP_REL32_SIZE
    } else {
        JMP_ABS64_SIZE
    }
}

/// Determine the patch size needed to jump from `from` to `to`.
pub fn jmp_patch_size(from: usize, to: usize) -> (r: usize)
    ensures
        r == jmp_size(from as int, to as int),
{
    let distance: i128 = to as i128 - (from as i128 + JMP_REL32_SIZE as i128);
    let magnitude: i128 = if distance < 0 { -distance } else { distance };
    if magnitude <= REL32_RANGE as i128 {
        JMP_REL32_SIZE
    } else {
        JMP_ABS64_SIZE
    }
}

/// Legacy prefixes: LOCK, REPNE, REP, segment overrides and branch hints,
/// operand-size and address-size overrides.
pub open spec fn is_legacy_prefix(b: u8) -> bool {
    b == 0xF0 || b == 0xF2 || b == 0xF3 || b == 0x2E || b == 0x36 || b == 0x3E || b == 0x26 || b
        == 0x64 || b == 0x65 || b == 0x66 || b == 0x67
}

/// Whether `b` is a REX prefix (40-4F).
pub open spec fn is_rex(b: u8) -> bool {
    0x40 <= b <= 0x4F
}

/// The number of legacy prefixes from `at` on.
pub open spec fn prefix_count(code: Seq<u8>, at: int) -> nat
    decreases code.len() - at,
{
    if 0 <= at < code.len() && is_legacy_prefix(code[at]) {
        1 + prefix_count(code, at + 1)
    } else {
        0
    }
}

/// Whether an address-size override (67) is among the legacy prefixes from
/// `at` on.
pub open spec fn has_addr_prefix(code: Seq<u8>, at: int) -> bool
    decreases code.len() - at,
{
    if 0 <= at < code.len() && is_legacy_prefix(code[at]) {
        code[at] == 0x67 || has_addr_prefix(code, at + 1)
    } else {
        false
    }
}

/// The number of prefix bytes (legacy prefixes, then at most one REX) of
/// the instruction at `at`.
pub open spec fn prefix_len64(code: Seq<u8>, at: int) -> nat {
    let p = prefix_count(code, at);
    if is_rex(code[at + p]) { p + 1 } else { p }
}

/// One-byte opcodes whose only operand bytes are a ModR/M byte and what it
/// calls for.
pub open spec fn takes_modrm_only64(op: u8) -> bool {
    ||| is_alu_modrm(op)
    ||| op == 0x84 || op == 0x85
    ||| 0x86 <= op <= 0x8B
    ||| op == 0x8D
    ||| op == 0xFF
    ||| 0xD0 <= op <= 0xD3
}

/// One-byte opcodes with a ModR/M byte followed by an 8-bit immediate.
pub open spec fn takes_modrm_imm8_64(op: u8) -> bool {
    op == 0xC6 || op == 0x80 || op == 0x83 || op == 0xC0 || op == 0xC1
}

/// One-byte opcodes with a ModR/M byte followed by a 32-bit immediate.
pub open spec fn takes_modrm_imm32_64(op: u8) -> bool {
    op == 0xC7 || op == 0x81
}

/// The length of the operands (after the opcode) of the instruction whose
/// opcode is at `o`; `w` tells whether a REX.W prefix precedes it, `a32`
/// whether an address-size override does (the offset of `A0`-`A3` is then
/// 4 bytes instead of 8).
pub open spec fn operand_len64(code: Seq<u8>, o: int, w: bool, a32: bool) -> Option<nat> {
    let op = code[o];
    let ml = modrm_len(code[o + 1], code[o + 2]);
    if (0x50 <= op <= 0x5F) || op == 0x90 || op == 0xC3 || op == 0xCC || op == 0xF4 || op == 0x99
        || op == 0x9C || op == 0x9D || op == 0xC9 || op == 0x98 {
        Some(0)
    } else if op == 0xEB || (0x70 <= op <= 0x7F) || (0xB0 <= op <= 0xB7) || op == 0x6A || op == 0xA8
        || is_alu_al_imm8(op) {
        Some(1)
    } else if op == 0xC2 {
        Some(2)
    } else if op == 0xE8 || op == 0xE9 || op == 0x68 || op == 0xA9 || is_alu_eax_imm32(op) {
        Some(4)
    } else if 0xB8 <= op <= 0xBF {
        if w { Some(8) } else { Some(4) }
    } else if 0xA0 <= op <= 0xA3 {
        if a32 { Some(4) } else { Some(8) }
    } else if op == 0x0F {
        if 0x80 <= code[o + 1] <= 0x8F {
            Some(5)
        } else {
            Some(1 + modrm_len(code[o + 2], code[o + 3]))
        }
    } else if takes_modrm_only64(op) {
        Some(ml)
    } else if takes_modrm_imm8_64(op) {
        Some(ml + 1)
    } else if takes_modrm_imm32_64(op) {
        Some(ml + 4)
    } else if op == 0xF6 || op == 0xF7 {
        let imm = if modrm_reg(code[o + 1]) <= 1 {
            if op == 0xF6 { 1nat } else { 4nat }
        } else {
            0nat
        };
        Some(ml + imm)
    } else {
        None
    }
}

/// The length of the x86-64 instruction at `at`: prefixes, opcode and
/// operands. `None` for opcodes the decoder does not know, and when the
/// instruction, or the bytes the decoder must read, run past the end of `code`.
pub open spec fn insn_len64(code: Seq<u8>, at: int) -> Option<nat> {
    let p = prefix_count(code, at);
    if at + p + 5 > code.len() {
        None
    } else {
        let rex = is_rex(code[at + p]);
        let w = rex && code[at + p] % 16 >= 8;
        let o = if rex { at + p + 1 } else { at + p };
        match operand_len64(code, o, w, has_addr_prefix(code, at)) {
            Some(k) => if o + 1 + k <= code.len() {
                Some((o + 1 + k - at) as nat)
            } else {
                None
            },
            None => None,
        }
    }
}

/// Bytes consumed by the ModR/M byte at `at` with its SIB byte and
/// displacement, under x86-64 addressing (mod 00, r/m 101 is RIP-relative,
/// of the same size as the 32-bit absolute form).
pub fn modrm_extra_len_64(code: &[u8], at: usize) -> (r: usize)
    requires
        at + 2 <= code@.len(),
    ensures
        r == modrm_len(code@[at as int], code@[at as int + 1]),
        1 <= r <= 6,
{
    let modrm = code[at];
    let mode = modrm >> 6;
    let rm = modrm & 7;
    assert(mode == modrm / 64 && rm == modrm % 8) by (bit_vector)
        requires
            mode == modrm >> 6,
            rm == modrm & 7,
    ;
    match mode {
        0b00 => {
            if rm == 0b100 {
                let sib = code[at + 1];
                let base = sib & 7;
                assert(base == sib % 8) by (bit_vector)
                    requires
                        base == sib & 7,
                ;
                if base == 0b101 {
                    1 + 1 + 4  // ModRM + SIB + disp32

                } else {
                    1 + 1  // ModRM + SIB

                }
            } else if rm == 0b101 {
                1 + 4  // ModRM + disp32 (RIP-relative)

            } else {
                1  // ModRM only

            }
        },
        0b01 => {
            if rm == 0b100 {
                1 + 1 + 1  // ModRM + SIB + disp8

            } else {
                1 + 1  // ModRM + disp8

            }
        },
        0b10 => {
            if rm == 0b100 {
                1 + 1 + 4  // ModRM + SIB + disp32

            } else {
                1 + 4  // ModRM + disp32

            }
        },
        _ => {
            1  // register operand

        },
    }
}

/// Whether `b` is a legacy prefix.
fn legacy_prefix(b: u8) -> (r: bool)
    ensures
        r == is_legacy_prefix(b),
{
    match b {
        0xF0 | 0xF2 | 0xF3 |  // LOCK, REPNE, REP
        0x2E | 0x36 | 0x3E | 0x26 | 0x64 | 0x65 |  // segment overrides, branch hints
        0x66 |  // operand-size override
        0x67 => true,  // address-size override
        _ => false,
    }
}

/// Decode the length of the x86-64 instruction at `at`.
#[verifier::rlimit(60)]
#[verifier::spinoff_prover]
pub fn x86_64_insn_len(code: &[u8], at: usize) -> (r: Option<usize>)
    requires
        at <= code@.len(),
    ensures
        r matches Some(n) ==> insn_len64(code@, at as int) == Some(n as nat),
        r is None ==> insn_len64(code@, at as int) is None,
        r matches Some(n) ==> 1 <= n && at + n <= code@.len(),
{
    let mut offset: usize = 0;
    let mut a32 = false;
    // legacy prefixes
    while offset < code.len() - at && legacy_prefix(code[at + offset])
        invariant
            at <= code@.len(),
            at + offset <= code@.len(),
            prefix_count(code@, at as int) == offset + prefix_count(code@, at + offset),
            has_addr_prefix(code@, at as int) == (a32 || has_addr_prefix(code@, at + offset)),
        decreases code.len() - (at + offset),
    {
        if code[at + offset] == 0x67 {
            a32 = true;
        }
        offset = offset + 1;
    }
    let ghost p = prefix_count(code@, at as int);
    assert(offset == p);
    if code.len() - at - offset < 5 {
        return None;
    }
    // REX prefix
    let b = code[at + offset];
    let rex_w;
    if b >= 0x40 && b <= 0x4F {
        rex_w = (b & 0x08) != 0;
        assert(rex_w == (b % 16 >= 8)) by (bit_vector)
            requires
                rex_w == ((b & 0x08) != 0),
        ;
        offset = offset + 1;
    } else {
        rex_w = false;
    }
    let o = at + offset;
    let op = code[o];
    offset = offset + 1;
    let k: Option<usize> = match op {
        0x50..=0x5F | 0x90 | 0xC3 | 0xCC | 0xF4 | 0x99 | 0x9C | 0x9D | 0xC9 | 0x98 => Some(0),
        0xE8 | 0xE9 => Some(4),  // CALL rel32, JMP rel32
        0xEB => Some(1),  // JMP rel8
        0x70..=0x7F => Some(1),  // Jcc rel8
        0xB8..=0xBF => {
            if rex_w {
                Some(8)  // MOV r64, imm64

            } else {
                Some(4)  // MOV r32, imm32

            }
        },
        0xB0..=0xB7 => Some(1),  // MOV r8, imm8
        0x6A => Some(1),  // PUSH imm8
        0x68 => Some(4),  // PUSH imm32
        0x0F => {
            let op2 = code[o + 1];
            match op2 {
                0x80..=0x8F => Some(5),  // Jcc rel32
                _ => Some(1 + modrm_extra_len_64(code, o + 2)),  // 0F xx with ModRM

            }
        },
        0x00..=0x03 | 0x08..=0x0B | 0x10..=0x13 | 0x18..=0x1B | 0x20..=0x23 | 0x28..=0x2B | 0x30..=0x33
        | 0x38..=0x3B => Some(modrm_extra_len_64(code, o + 1)),
        0x04 | 0x0C | 0x14 | 0x1C | 0x24 | 0x2C | 0x34 | 0x3C => Some(1),  // ALU AL, imm8
        0x05 | 0x0D | 0x15 | 0x1D | 0x25 | 0x2D | 0x35 | 0x3D => Some(4),  // ALU rAX, imm32
        0x84 | 0x85 => Some(modrm_extra_len_64(code, o + 1)),  // TEST r/m, r
        0x86..=0x8B => Some(modrm_extra_len_64(code, o + 1)),  // XCHG, MOV
        0x8D => Some(modrm_extra_len_64(code, o + 1)),  // LEA
        0xC6 => Some(modrm_extra_len_64(code, o + 1) + 1),  // MOV r/m, imm8
        0xC7 => Some(modrm_extra_len_64(code, o + 1) + 4),  // MOV r/m, imm32
        0x80 | 0x83 => Some(modrm_extra_len_64(code, o + 1) + 1),  // group 1, imm8
        0x81 => Some(modrm_extra_len_64(code, o + 1) + 4),  // group 1, imm32
        0xC0 | 0xC1 => Some(modrm_extra_len_64(code, o + 1) + 1),  // shift/rotate imm8
        0xD0..=0xD3 => Some(modrm_extra_len_64(code, o + 1)),  // shift/rotate
        0xA9 => Some(4),  // TEST rAX, imm32
        0xA8 => Some(1),  // TEST AL, imm8
        0xA0..=0xA3 => {
            // MOV AL/rAX, moffs and back: an 8-byte offset, 4 bytes after 67
            if a32 {
                Some(4)
            } else {
                Some(8)
            }
        },
        0xFF => Some(modrm_extra_len_64(code, o + 1)),  // group 5
        0xF6 | 0xF7 => {
            let modrm = code[o + 1];
            let reg = (modrm >> 3) & 7;
            assert(reg == (modrm / 8) % 8) by (bit_vector)
                requires
                    reg == (modrm >> 3) & 7,
            ;
            let extra = modrm_extra_len_64(code, o + 1);
            if reg == 0 || reg == 1 {
                if op == 0xF6 {
                    Some(extra + 1)  // TEST r/m8, imm8

                } else {
                    Some(extra + 4)  // TEST r/m32, imm32

                }
            } else {
                Some(extra)
            }
        },
        0xC2 => Some(2),  // RET imm16
        _ => None,
    };
    match k {
        Some(k) => {
            if k > code.len() - (o + 1) {
                None
            } else {
                Some(o + 1 + k - at)
            }
        },
        None => None,
    }
}


/// Every decoded instruction is at least one byte long and lies within `code`.
pub proof fn lemma_insn_len64_bounds(code: Seq<u8>, at: int)
    requires
        0 <= at,
    ensures
        insn_len64(code, at) matches Some(l) ==> 1 <= l && at + l <= code.len(),
{
}

/// The length of an x86-64 instruction is its prefixes (legacy ones, then
/// at most one REX), the opcode (two bytes after `0F`), the ModR/M byte with
/// its SIB byte and displacement where the opcode takes one, and the
/// immediate the opcode carries: none for the ModR/M-only opcodes, one byte
/// for `C6`, `80`, `83`, `C0`, `C1`, four for `C7` and `81`, one or four for
/// the `TEST` forms of `F6`/`F7`; eight for `MOV r64, imm64` and for the
/// 64-bit `moffs` of `A0`-`A3`; four for `rel32` branches and 32-bit
/// immediates; one for `rel8` branches and 8-bit immediates; two for
/// `RET imm16`.
pub proof fn law_insn_len64_parts(code: Seq<u8>, at: int)
    requires
        0 <= at,
        at + prefix_count(code, at) + 5 <= code.len(),
    ensures
        ({
            let p = prefix_count(code, at) as int;
            let rex = 0x40 <= code[at + p] <= 0x4F;
            let w = rex && code[at + p] % 16 >= 8;
            let o = if rex { at + p + 1 } else { at + p };
            let op = code[o];
            let ml = modrm_len(code[o + 1], code[o + 2]) as int;
            let reg = (code[o + 1] / 8) % 8;
            let a32 = has_addr_prefix(code, at);
            let len = |k: int| if o + 1 + k <= code.len() { Some((o + 1 + k - at) as nat) } else { None::<nat> };
            &&& (op == 0x81 || op == 0xC7) ==> insn_len64(code, at) == len(ml + 4)
            &&& (op == 0x80 || op == 0x83 || op == 0xC0 || op == 0xC1 || op == 0xC6) ==> insn_len64(code, at) == len(ml + 1)
            &&& ((op < 0x40 && op % 8 < 4) || (0x84 <= op <= 0x8B) || op == 0x8D || op == 0xFF || (0xD0 <= op <= 0xD3))
                ==> insn_len64(code, at) == len(ml)
            &&& (op == 0xF6 || op == 0xF7) && reg >= 2 ==> insn_len64(code, at) == len(ml)
            &&& op == 0xF6 && reg <= 1 ==> insn_len64(code, at) == len(ml + 1)
            &&& op == 0xF7 && reg <= 1 ==> insn_len64(code, at) == len(ml + 4)
            &&& op == 0x0F && 0x80 <= code[o + 1] <= 0x8F ==> insn_len64(code, at) == len(5)
            &&& op == 0x0F && !(0x80 <= code[o + 1] <= 0x8F) ==> insn_len64(code, at) == len(
                1 + modrm_len(code[o + 2], code[o + 3]) as int,
            )
            &&& 0xB8 <= op <= 0xBF ==> insn_len64(code, at) == len(if w { 8 } else { 4 })
            &&& 0xA0 <= op <= 0xA3 ==> insn_len64(code, at) == len(if a32 { 4 } else { 8 })
            &&& (op == 0xE8 || op == 0xE9 || op == 0x68 || op == 0xA9 || (op < 0x40 && op % 8 == 5)) ==> insn_len64(code, at)
                == len(4)
            &&& (op == 0xEB || (0x70 <= op <= 0x7F) || (0xB0 <= op <= 0xB7) || op == 0x6A || op == 0xA8 || (op < 0x40
                && op % 8 == 4)) ==> insn_len64(code, at) == len(1)
            &&& op == 0xC2 ==> insn_len64(code, at) == len(2)
            &&& ((0x50 <= op <= 0x5F) || op == 0x90 || op == 0xC3 || op == 0xCC || op == 0xF4 || op == 0x99 || op
                == 0x9C || op == 0x9D || op == 0xC9 || op == 0x98) ==> insn_len64(code, at) == len(0)
        }),
{
}

/// The prologue scan: whole instructions from `offset` on until at least
/// `min_patch_size` bytes are covered.
pub open spec fn prologue_scan64(code: Seq<u8>, offset: int, min_patch_size: int) -> Result<usize, PrologueError>
    decreases code.len() - offset,
{
    if offset >= min_patch_size || offset < 0 {
        Ok(offset as usize)
    } else if offset >= MAX_PROLOGUE_COPY {
        Err(PrologueError::TooLong)
    } else {
        match insn_len64(code, offset) {
            Some(l) => {
                proof {
                    lemma_insn_len64_bounds(code, offset);
                }
                prologue_scan64(code, offset + l, min_patch_size)
            },
            None => Err(PrologueError::UnknownOpcode { opcode: code[offset], offset: offset as usize }),
        }
    }
}

/// Whether the bytes from `from` to `to` are a whole number of decoded
/// instructions.
pub open spec fn splits64(code: Seq<u8>, from: int, to: int) -> bool
    decreases to - from,
{
    if from == to {
        true
    } else if 0 <= from < to {
        match insn_len64(code, from) {
            Some(l) => if from + l <= to {
                proof {
                    lemma_insn_len64_bounds(code, from);
                }
                splits64(code, from + l, to)
            } else {
                false
            },
            None => false,
        }
    } else {
        false
    }
}

proof fn lemma_scan64_splits(code: Seq<u8>, offset: int, min_patch_size: int)
    requires
        0 <= offset <= code.len(),
        code.len() <= usize::MAX,
        offset <= min_patch_size,
    ensures
        prologue_scan64(code, offset, min_patch_size) matches Ok(n) ==> offset <= n <= code.len()
            && min_patch_size <= n && splits64(code, offset, n as int),
    decreases code.len() - offset,
{
    lemma_insn_len64_bounds(code, offset);
    if offset < min_patch_size && offset < MAX_PROLOGUE_COPY {
        if let Some(l) = insn_len64(code, offset) {
            if offset + l < min_patch_size {
                lemma_scan64_splits(code, offset + l, min_patch_size);
            } else {
                assert(splits64(code, offset + l, offset + l));
            }
        }
    }
}

/// The number of prologue bytes to move to a trampoline: whole
/// instructions, at least `min_patch_size` bytes.
pub fn prologue_copy_len(code: &[u8], min_patch_size: usize) -> (r: Result<usize, PrologueError>)
    requires
        code@.len() >= 2 * MAX_PROLOGUE_COPY,
        min_patch_size <= JMP_ABS64_SIZE,
    ensures
        r == prologue_scan64(code@, 0, min_patch_size as int),
        r matches Ok(n) ==> min_patch_size <= n <= code@.len() && splits64(code@, 0, n as int),
{
    let _ = code.len();
    proof {
        lemma_scan64_splits(code@, 0, min_patch_size as int);
    }
    let mut offset: usize = 0;
    while offset < min_patch_size
        invariant
            offset <= code@.len(),
            code@.len() >= 2 * MAX_PROLOGUE_COPY,
            min_patch_size <= JMP_ABS64_SIZE,
            prologue_scan64(code@, offset as int, min_patch_size as int) == prologue_scan64(code@, 0, min_patch_size as int),
        decreases code.len() - offset,
    {
        if offset >= MAX_PROLOGUE_COPY {
            return Err(PrologueError::TooLong);
        }
        match x86_64_insn_len(code, offset) {
            Some(len) => offset = offset + len,
            None => {
                return Err(PrologueError::UnknownOpcode { opcode: code[offset], offset });
            },
        }
    }
    Ok(offset)
}

/// The eight little-endian bytes of `v` modulo 2^64.
pub open spec fn field64(v: int) -> Seq<u8> {
    let u = v % 0x1_0000_0000_0000_0000;
    Seq::new(8, |k: int| ((u / pow256(k)) % 256) as u8)
}

/// 256 to the power `k`.
pub open spec fn pow256(k: int) -> int
    decreases k,
{
    if k <= 0 { 1 } else { 256 * pow256(k - 1) }
}

/// The jump placed at `from` that lands on `to`: `JMP rel32` when it reaches,
/// otherwise `JMP [RIP+0]` followed by the 8-byte address.
pub open spec fn jmp64(from: int, to: int) -> Seq<u8> {
    if rel32_reaches(from, to) {
        seq![0xE9u8] + field32(to - (from + JMP_REL32_SIZE))
    } else {
        seq![0xFFu8, 0x25u8, 0u8, 0u8, 0u8, 0u8] + field64(to)
    }
}

/// `JMP rel32` at `write_addr` to `target_addr`; the jump must reach.
pub fn write_jmp_rel32(write_addr: usize, target_addr: usize) -> (r: Vec<u8>)
    requires
        rel32_reaches(write_addr as int, target_addr as int),
    ensures
        r@ == jmp64(write_addr as int, target_addr as int),
{
    let field = field32_bytes(target_addr as i128 - (write_addr as i128 + JMP_REL32_SIZE as i128));
    let mut r: Vec<u8> = Vec::new();
    r.push(0xE9);
    r.push(field[0]);
    r.push(field[1]);
    r.push(field[2]);
    r.push(field[3]);
    assert(r@ =~= jmp64(write_addr as int, target_addr as int));
    r
}

/// Absolute jump `FF 25 00 00 00 00` and the 8-byte address of `target_addr`.
pub fn write_jmp_abs64(target_addr: usize) -> (r: Vec<u8>)
    ensures
        r@ == seq![0xFFu8, 0x25u8, 0u8, 0u8, 0u8, 0u8] + field64(target_addr as int),
{
    let mut r: Vec<u8> = Vec::new();
    r.push(0xFF);
    r.push(0x25);
    r.push(0);
    r.push(0);
    r.push(0);
    r.push(0);
    let ghost head = r@;
    let t: u64 = target_addr as u64;
    assert(t as int == target_addr as int % 0x1_0000_0000_0000_0000);
    let mut k: usize = 0;
    let mut rest: u64 = t;
    while k < 8
        invariant
            k <= 8,
            pow256(k as int) > 0,
            rest as int == t as int / pow256(k as int),
            t as int == target_addr as int % 0x1_0000_0000_0000_0000,
            r@.len() == 6 + k,
            r@.subrange(0, 6) == head,
            head == seq![0xFFu8, 0x25u8, 0u8, 0u8, 0u8, 0u8],
            forall|j: int| 0 <= j < k ==> r@[6 + j] == ((t as int / pow256(j)) % 256) as u8,
        decreases 8 - k,
    {
        let ghost before = r@;
        r.push((rest % 256) as u8);
        proof {
            assert(pow256(k + 1) == 256 * pow256(k as int));
            vstd::arithmetic::div_mod::lemma_div_denominator(t as int, pow256(k as int), 256);
            assert(pow256(k as int) * 256 == pow256(k + 1)) by (nonlinear_arith)
                requires
                    pow256(k + 1) == 256 * pow256(k as int),
            ;
            assert(r@.subrange(0, 6) =~= before.subrange(0, 6));
        }
        rest = rest / 256;
        k = k + 1;
    }
    proof {
        let f = field64(target_addr as int);
        assert(r@ =~= head + f) by {
            assert forall|j: int| 0 <= j < 8 implies r@[6 + j] == f[j] by {}
        }
    }
    r
}


/// The jump from `write_addr` to `target_addr`: `JMP rel32` when it reaches,
/// the absolute jump otherwise. Its length is `jmp_patch_size` of the two.
pub fn write_jmp(write_addr: usize, target_addr: usize) -> (r: Vec<u8>)
    ensures
        r@ == jmp64(write_addr as int, target_addr as int),
        r@.len() == jmp_size(write_addr as int, target_addr as int),
{
    if jmp_patch_size(write_addr, target_addr) == JMP_REL32_SIZE {
        write_jmp_rel32(write_addr, target_addr)
    } else {
        let r = write_jmp_abs64(target_addr);
        assert(r@ =~= jmp64(write_addr as int, target_addr as int));
        r
    }
}

/// The instruction of length `l` at `i` with its RIP-relative displacement
/// (ModR/M `mod` 00, `r/m` 101, right after the opcode) raised by `delta`,
/// when it has one that still fits in 32 bits; otherwise unchanged. Only an
/// opcode that takes a ModR/M byte has one; the ModR/M byte follows the
/// prefixes and one (or, after `0F`, two) opcode bytes.
pub open spec fn rip_fixed(code: Seq<u8>, i: int, l: int, delta: int) -> Seq<u8> {
    let ins = code.subrange(i, i + l);
    let p = prefix_len64(code, i) as int;
    let m = if code[i + p] == 0x0F { p + 2 } else { p + 1 };
    if takes_modrm64(code, i + p) && m < l && modrm_mod(code[i + m]) == 0 && modrm_rm(code[i + m]) == 5
        && m + 5 <= l {
        let nd = le_i32(code, i + m + 1) + delta;
        if fits_i32(nd) {
            ins.subrange(0, m + 1) + field32(nd) + ins.subrange(m + 5, l)
        } else {
            ins
        }
    } else {
        ins
    }
}

/// Whether the opcode at `o` takes a ModR/M byte (at `o + 1`, or at `o + 2`
/// after `0F`), as the decoder reads it.
pub open spec fn takes_modrm64(code: Seq<u8>, o: int) -> bool {
    let op = code[o];
    ||| takes_modrm_only64(op)
    ||| takes_modrm_imm8_64(op)
    ||| takes_modrm_imm32_64(op)
    ||| op == 0xF6 || op == 0xF7
    ||| (op == 0x0F && !(0x80 <= code[o + 1] <= 0x8F))
}

/// Whether the instruction of length `l` at `i` is a `CALL/JMP rel32`
/// (first byte `E8` or `E9`, at least five bytes).
pub open spec fn is_branch64(code: Seq<u8>, i: int, l: int) -> bool {
    (code[i] == 0xE8 || code[i] == 0xE9) && l >= 5
}

/// The instruction of length `l` at `i`, moved by `-delta` bytes: its
/// RIP-relative operand adjusted, and for a `CALL/JMP rel32` its last four
/// bytes, the displacement, raised by `delta`; `Err` when that does not fit.
pub open spec fn move_insn64(code: Seq<u8>, i: int, l: int, delta: int) -> Result<Seq<u8>, ()> {
    let a = rip_fixed(code, i, l, delta);
    if is_branch64(code, i, l) {
        let nr = le_i32(code, i + l - 4) + delta;
        if fits_i32(nr) {
            Ok(a.subrange(0, l - 4) + field32(nr))
        } else {
            Err(())
        }
    } else {
        Ok(a)
    }
}

/// The instructions from `from` to `to` moved by `-delta` bytes; `Err`
/// holds the offset of the first branch that cannot reach its target.
pub open spec fn relocate64(code: Seq<u8>, from: int, to: int, delta: int) -> Result<Seq<u8>, int>
    decreases to - from,
{
    if from >= to || from < 0 {
        Ok(Seq::empty())
    } else {
        match insn_len64(code, from) {
            Some(l) => if from + l <= to {
                proof {
                    lemma_insn_len64_bounds(code, from);
                }
                match move_insn64(code, from, l as int, delta) {
                    Ok(m) => match relocate64(code, from + l, to, delta) {
                        Ok(rest) => Ok(m + rest),
                        Err(e) => Err(e),
                    },
                    Err(_) => Err(from),
                }
            } else {
                Err(from)
            },
            None => Err(from),
        }
    }
}

/// The trampoline at `trampoline_addr` for the function at `target_addr`:
/// the first `prologue_len` bytes moved there, then a jump back.
pub open spec fn trampoline64(code: Seq<u8>, prologue_len: int, target_addr: int, trampoline_addr: int) -> Result<Seq<u8>, int> {
    match relocate64(code, 0, prologue_len, target_addr - trampoline_addr) {
        Ok(moved) => Ok(moved + jmp64(trampoline_addr + prologue_len, target_addr + prologue_len)),
        Err(e) => Err(e),
    }
}

/// The number of prefix bytes of the instruction at `at`.
fn prefix_len(code: &[u8], at: usize) -> (r: usize)
    requires
        insn_len64(code@, at as int) is Some,
    ensures
        r == prefix_len64(code@, at as int),
        at + r < code@.len(),
{
    let mut p: usize = 0;
    while p < code.len() - at && legacy_prefix(code[at + p])
        invariant
            at + p <= code@.len(),
            at + prefix_count(code@, at as int) + 5 <= code@.len(),
            prefix_count(code@, at as int) == p + prefix_count(code@, at + p),
        decreases code.len() - (at + p),
    {
        p = p + 1;
    }
    assert(p == prefix_count(code@, at as int));
    let b = code[at + p];
    if b >= 0x40 && b <= 0x4F {
        p + 1
    } else {
        p
    }
}

/// Whether the opcode at `o` takes a ModR/M byte.
fn has_modrm64(code: &[u8], o: usize) -> (r: bool)
    requires
        o + 2 <= code@.len(),
    ensures
        r == takes_modrm64(code@, o as int),
{
    let op = code[o];
    match op {
        0x00..=0x03 | 0x08..=0x0B | 0x10..=0x13 | 0x18..=0x1B | 0x20..=0x23 | 0x28..=0x2B | 0x30..=0x33
        | 0x38..=0x3B => true,
        0x84..=0x8B | 0x8D | 0xFF | 0xD0..=0xD3 => true,
        0xC6 | 0x80 | 0x83 | 0xC0 | 0xC1 | 0xC7 | 0x81 | 0xF6 | 0xF7 => true,
        0x0F => !(code[o + 1] >= 0x80 && code[o + 1] <= 0x8F),
        _ => false,
    }
}

/// Move one instruction: the exec counterpart of `move_insn64`.
#[verifier::rlimit(40)]
#[verifier::spinoff_prover]
fn move_insn(code: &[u8], i: usize, l: usize, delta: i128) -> (r: Option<Vec<u8>>)
    requires
        insn_len64(code@, i as int) == Some(l as nat),
        i + l <= code@.len(),
        -0x1_0000_0000_0000_0000 <= delta <= 0x1_0000_0000_0000_0000,
    ensures
        r matches Some(m) ==> move_insn64(code@, i as int, l as int, delta as int) == Ok::<Seq<u8>, ()>(m@),
        r is None ==> move_insn64(code@, i as int, l as int, delta as int) is Err,
{
    let _ = code.len();
    // copy
    let mut out: Vec<u8> = Vec::new();
    let mut k: usize = 0;
    while k < l
        invariant
            k <= l,
            i + l <= code@.len(),
            code@.len() <= usize::MAX,
            out@ == code@.subrange(i as int, i + k),
        decreases l - k,
    {
        out.push(code[i + k]);
        k = k + 1;
        assert(out@ =~= code@.subrange(i as int, i + k));
    }
    // RIP-relative operand
    let p = prefix_len(code, i);
    let m = if code[i + p] == 0x0F { p + 2 } else { p + 1 };
    let mut fixed = out;
    if has_modrm64(code, i + p) && m < l {
        let modrm = code[i + m];
        let mode = modrm >> 6;
        let rm = modrm & 7;
        assert(mode == modrm / 64 && rm == modrm % 8) by (bit_vector)
            requires
                mode == modrm >> 6,
                rm == modrm & 7,
        ;
        if mode == 0 && rm == 5 && l - m >= 5 {
            let d = read_le_i32(code, i + m + 1);
            let nd: i128 = d as i128 + delta;
            if nd >= -0x8000_0000 && nd <= 0x7fff_ffff {
                let f = field32_bytes(nd);
                let ghost before = fixed@;
                fixed.set(m + 1, f[0]);
                fixed.set(m + 2, f[1]);
                fixed.set(m + 3, f[2]);
                fixed.set(m + 4, f[3]);
                assert(fixed@ =~= before.subrange(0, m + 1) + f@ + before.subrange(m + 5, l as int));
            }
        }
    }
    assert(fixed@ == rip_fixed(code@, i as int, l as int, delta as int));
    // CALL/JMP rel32
    if (code[i] == 0xE8 || code[i] == 0xE9) && l >= 5 {
        let orig = read_le_i32(code, i + l - 4);
        let nr: i128 = orig as i128 + delta;
        if nr < -0x8000_0000 || nr > 0x7fff_ffff {
            return None;
        }
        let f = field32_bytes(nr);
        let ghost before = fixed@;
        fixed.set(l - 4, f[0]);
        fixed.set(l - 3, f[1]);
        fixed.set(l - 2, f[2]);
        fixed.set(l - 1, f[3]);
        assert(fixed@ =~= before.subrange(0, l - 4) + f@);
    }
    Some(fixed)
}


/// Build the trampoline, at `trampoline_addr`, for the function at
/// `target_addr` whose first bytes are `code`.
pub fn build_trampoline(code: &[u8], prologue_len: usize, target_addr: usize, trampoline_addr: usize) -> (r: Result<Vec<u8>, BranchOutOfRange>)
    requires
        prologue_len <= code@.len(),
        splits64(code@, 0, prologue_len as int),
        target_addr + prologue_len <= usize::MAX,
        trampoline_addr + prologue_len <= usize::MAX,
    ensures
        r matches Ok(t) ==> trampoline64(code@, prologue_len as int, target_addr as int, trampoline_addr as int) == Ok::<Seq<u8>, int>(t@),
        r matches Err(e) ==> {
            let l = insn_len64(code@, e.offset as int)->Some_0 as int;
            &&& trampoline64(code@, prologue_len as int, target_addr as int, trampoline_addr as int) == Err::<Seq<u8>, int>(e.offset as int)
            &&& e.opcode == code@[e.offset as int]
            &&& e.opcode == 0xE8 || e.opcode == 0xE9
            &&& insn_len64(code@, e.offset as int) is Some
            &&& e.branch_target == target_addr + e.offset + l + le_i32(code@, e.offset + l - 4)
            &&& e.trampoline_end == trampoline_addr + e.offset + l
        },
{
    let _ = code.len();
    let ghost d = target_addr - trampoline_addr;
    let delta: i128 = target_addr as i128 - trampoline_addr as i128;
    let mut out: Vec<u8> = Vec::new();
    let mut offset: usize = 0;
    while offset < prologue_len
        invariant
            offset <= prologue_len,
            prologue_len <= code@.len(),
            code@.len() <= usize::MAX,
            delta == d,
            d == target_addr - trampoline_addr,
            splits64(code@, offset as int, prologue_len as int),
            prepend(out@, relocate64(code@, offset as int, prologue_len as int, d)) == relocate64(
                code@,
                0,
                prologue_len as int,
                d,
            ),
        decreases prologue_len - offset,
    {
        let len = match x86_64_insn_len(code, offset) {
            Some(len) => len,
            None => {
                assert(false);
                0
            },
        };
        let ghost rest = relocate64(code@, offset + len, prologue_len as int, d);
        match move_insn(code, offset, len, delta) {
            Some(m) => {
                let ghost before = out@;
                let mut k: usize = 0;
                while k < m.len()
                    invariant
                        k <= m@.len(),
                        out@ == before + m@.subrange(0, k as int),
                    decreases m.len() - k,
                {
                    out.push(m[k]);
                    k = k + 1;
                    assert(out@ =~= before + m@.subrange(0, k as int));
                }
                proof {
                    assert(m@.subrange(0, m@.len() as int) =~= m@);
                    assert(prepend(out@, rest) == prepend(before, prepend(m@, rest))) by {
                        match rest {
                            Ok(r) => {
                                assert(before + (m@ + r) =~= out@ + r);
                            },
                            Err(e) => {},
                        }
                    }
                }
            },
            None => {
                assert(is_branch64(code@, offset as int, len as int));
                return Err(
                    BranchOutOfRange {
                        offset,
                        opcode: code[offset],
                        branch_target: target_addr as i128 + (offset + len) as i128 + read_le_i32(code, offset + len - 4) as i128,
                        trampoline_end: trampoline_addr as i128 + (offset + len) as i128,
                    },
                );
            },
        }
        offset = offset + len;
    }
    let back = write_jmp(trampoline_addr + prologue_len, target_addr + prologue_len);
    let ghost moved = out@;
    let mut k: usize = 0;
    while k < back.len()
        invariant
            k <= back@.len(),
            out@ == moved + back@.subrange(0, k as int),
        decreases back.len() - k,
    {
        out.push(back[k]);
        k = k + 1;
        assert(out@ =~= moved + back@.subrange(0, k as int));
    }
    proof {
        assert(back@.subrange(0, back@.len() as int) =~= back@);
        assert(relocate64(code@, offset as int, prologue_len as int, d) == Ok::<Seq<u8>, int>(Seq::empty()));
        assert(moved + Seq::<u8>::empty() =~= moved);
    }
    Ok(out)
}


/// The patch over the first `prologue_len` bytes of the function at `addr`:
/// a jump to `replacement_addr`, then `NOP`s.
pub open spec fn hook_patch64(addr: int, replacement_addr: int, prologue_len: int) -> Seq<u8> {
    jmp64(addr, replacement_addr) + nops(prologue_len - jmp_size(addr, replacement_addr))
}

/// Build the patch that redirects the function at `addr` to
/// `replacement_addr`, padded with `NOP`s to `prologue_len` bytes.
pub fn build_hook_patch(addr: usize, replacement_addr: usize, prologue_len: usize) -> (r: Vec<u8>)
    requires
        jmp_size(addr as int, replacement_addr as int) <= prologue_len,
    ensures
        r@ == hook_patch64(addr as int, replacement_addr as int, prologue_len as int),
        r@.len() == prologue_len,
{
    let mut r = write_jmp(addr, replacement_addr);
    let ghost head = r@;
    let mut i: usize = r.len();
    while i < prologue_len
        invariant
            head.len() <= i <= prologue_len,
            r@ == head + nops(i - head.len()),
            head.len() == jmp_size(addr as int, replacement_addr as int),
        decreases prologue_len - i,
    {
        r.push(0x90);
        i = i + 1;
        assert(r@ =~= head + nops(i - head.len()));
    }
    assert(r@ =~= hook_patch64(addr as int, replacement_addr as int, prologue_len as int));
    r
}

/// The number of candidate addresses tried near a function before
/// allocating anywhere.
pub const NEAR_HINT_COUNT: usize = 4096;

/// The `attempt`-th candidate address for a trampoline near `target_addr`:
/// 64KB steps of growing size (1, 1, 2, 2, ... 2048), below then above the
/// target, page aligned; `None` when it falls outside 2GB of the target or
/// is 0.
pub open spec fn near_hint_spec(target_addr: usize, page_size: usize, attempt: int) -> Option<usize> {
    let step = (attempt / 2 + 1) * 0x10000;
    let raw = if attempt % 2 == 0 {
        (target_addr - step) % (usize::MAX as int + 1)
    } else {
        (target_addr + step) % (usize::MAX as int + 1)
    };
    let hint = raw - raw % page_size as int;
    let low = if target_addr >= REL32_RANGE { target_addr - REL32_RANGE } else { 0 };
    let high = if target_addr + REL32_RANGE <= usize::MAX { target_addr + REL32_RANGE } else { usize::MAX as int };
    if hint < low || hint > high || hint == 0 {
        None
    } else {
        Some(hint as usize)
    }
}

/// The `attempt`-th candidate address for a trampoline near `target_addr`
/// (page sizes are powers of two; the address is rounded down to a page).
pub fn near_hint(target_addr: usize, page_size: usize, attempt: usize) -> (r: Option<usize>)
    requires
        page_size > 0,
        attempt < NEAR_HINT_COUNT,
    ensures
        r == near_hint_spec(target_addr, page_size, attempt as int),
{
    let modulus: i128 = usize::MAX as i128 + 1;
    let step: i128 = (attempt / 2 + 1) as i128 * 0x10000;
    let raw: i128 = if attempt % 2 == 0 {
        let d = target_addr as i128 - step;
        if d < 0 { d + modulus } else { d }
    } else {
        let d = target_addr as i128 + step;
        if d >= modulus { d - modulus } else { d }
    };
    proof {
        let m = usize::MAX as int + 1;
        if attempt % 2 == 0 {
            if target_addr - step < 0 {
                assert((target_addr - step) % m == target_addr - step + m) by (nonlinear_arith)
                    requires
                        -m < target_addr - step < 0,
                        m > 0,
                ;
            } else {
                assert((target_addr - step) % m == target_addr - step) by (nonlinear_arith)
                    requires
                        0 <= target_addr - step < m,
                ;
            }
        } else {
            if target_addr + step >= m {
                assert((target_addr + step) % m == target_addr + step - m) by (nonlinear_arith)
                    requires
                        m <= target_addr + step < 2 * m,
                ;
            } else {
                assert((target_addr + step) % m == target_addr + step) by (nonlinear_arith)
                    requires
                        0 <= target_addr + step < m,
                ;
            }
        }
    }
    let hint: i128 = raw - raw % page_size as i128;
    let low: i128 = if target_addr as u64 >= REL32_RANGE { target_addr as i128 - REL32_RANGE as i128 } else { 0 };
    let high: i128 = if target_addr as i128 + REL32_RANGE as i128 <= usize::MAX as i128 {
        target_addr as i128 + REL32_RANGE as i128
    } else {
        usize::MAX as i128
    };
    if hint < low || hint > high || hint == 0 {
        None
    } else {
        Some(hint as usize)
    }
}

/// Whether memory allocated at `code_addr` lies within 2GB of `target_addr`.
pub fn within_rel32_range(code_addr: usize, target_addr: usize) -> (b: bool)
    ensures
        b == (-(REL32_RANGE as int) <= code_addr - target_addr <= REL32_RANGE),
{
    let d: i128 = code_addr as i128 - target_addr as i128;
    -(REL32_RANGE as i128) <= d && d <= REL32_RANGE as i128
}


/// The next step of the search for trampoline memory near a function.
#[derive(Clone, Copy, Debug, PartialEq, Eq, Structural)]
pub enum NearStep {
    /// Ask for memory at `hint`, the candidate of attempt `attempt`.
    TryAt { attempt: usize, hint: usize },
    /// No candidate is left: ask for memory anywhere.
    Anywhere,
}

/// The first attempt from `attempt` on that has a candidate address near
/// `target_addr`: the candidates of the attempts before it fall outside
/// 2GB of the function (or are 0).
pub fn near_plan(target_addr: usize, page_size: usize, attempt: usize) -> (r: NearStep)
    requires
        page_size > 0,
    ensures
        r matches NearStep::TryAt { attempt: a, hint } ==> {
            &&& attempt <= a < NEAR_HINT_COUNT
            &&& near_hint_spec(target_addr, page_size, a as int) == Some(hint)
            &&& forall|j: int| attempt <= j < a ==> near_hint_spec(target_addr, page_size, j) is None
        },
        r is Anywhere ==> forall|j: int| attempt <= j < NEAR_HINT_COUNT ==> near_hint_spec(target_addr, page_size, j) is None,
{
    let mut a = attempt;
    while a < NEAR_HINT_COUNT
        invariant
            page_size > 0,
            attempt <= a,
            forall|j: int| attempt <= j < a ==> near_hint_spec(target_addr, page_size, j) is None,
        decreases NEAR_HINT_COUNT - a,
    {
        if let Some(hint) = near_hint(target_addr, page_size, a) {
            return NearStep::TryAt { attempt: a, hint };
        }
        a = a + 1;
    }
    NearStep::Anywhere
}

/// What to do with the memory a candidate gave.
#[derive(Clone, Copy, Debug, PartialEq, Eq, Structural)]
pub enum NearOutcome {
    /// Use it: it lies within 2GB of the function.
    Accept(usize),
    /// Unmap it, as it lies too far, and try the next attempt.
    Release(usize),
    /// Nothing was mapped: try the next attempt.
    Retry,
}

/// The outcome of asking for memory at a candidate: memory `mapped` within
/// 2GB of `target_addr` is accepted, memory further away is released.
pub fn near_outcome(target_addr: usize, mapped: Option<usize>) -> (r: NearOutcome)
    ensures
        r == match mapped {
            Some(code) => if -(REL32_RANGE as int) <= code - target_addr <= REL32_RANGE {
                NearOutcome::Accept(code)
            } else {
                NearOutcome::Release(code)
            },
            None => NearOutcome::Retry,
        },
{
    match mapped {
        Some(code) => if within_rel32_range(code, target_addr) {
            NearOutcome::Accept(code)
        } else {
            NearOutcome::Release(code)
        },
        None => NearOutcome::Retry,
    }
}

/// The inline patch for the function at `addr` whose first bytes are `code`,
/// jumping to `replacement_addr`, with its trampoline at `trampoline_addr`:
/// `Ok((prologue_len, trampoline))` or the reason it cannot be made.
pub open spec fn inline_plan64(code: Seq<u8>, addr: usize, replacement_addr: usize, trampoline_addr: usize) -> Result<(usize, Seq<u8>), HookFailureKind> {
    match prologue_scan64(code, 0, jmp_size(addr as int, replacement_addr as int) as int) {
        Ok(n) => match trampoline64(code, n as int, addr as int, trampoline_addr as int) {
            Ok(t) => Ok((n, t)),
            Err(off) => Err(HookFailureKind::Relocation(off)),
        },
        Err(e) => Err(HookFailureKind::Prologue(e)),
    }
}

/// Whether `site` is what hooking a function in state `m` needs.
pub open spec fn site_fits64(m: BoundFnModel, site: HookSite) -> bool {
    match site {
        HookSite::Code { bytes, trampoline_addr } => {
            &&& m.direct
            &&& bytes@.len() >= 2 * MAX_PROLOGUE_COPY
            &&& m.addr + bytes@.len() <= usize::MAX
            &&& trampoline_addr + bytes@.len() <= usize::MAX
        },
        HookSite::Slot { .. } => !m.direct,
    }
}

/// The outcome of hooking a hookable function.
pub open spec fn hook_outcome64(m: BoundFnModel, replacement_addr: usize, site: HookSite, r: Result<HookPatch, HookError>) -> bool {
    match site {
        HookSite::Code { bytes, trampoline_addr } => match inline_plan64(bytes@, m.addr, replacement_addr, trampoline_addr) {
            Ok((n, t)) => match r {
                Ok(HookPatch::Inline { target_addr, trampoline_addr: ta, trampoline, patch, saved_bytes }) => {
                    &&& target_addr == m.addr
                    &&& ta == trampoline_addr
                    &&& trampoline@ == t
                    &&& patch@ == hook_patch64(m.addr as int, replacement_addr as int, n as int)
                    &&& saved_bytes@ == bytes@.take(n as int)
                },
                _ => false,
            },
            Err(HookFailureKind::Prologue(pe)) => match r {
                Err(HookError::Hook(nm, HookFailure::Prologue { addr, patch_size, wide, error })) => nm@ == m.name && error == pe && addr == m.addr && patch_size == jmp_size(m.addr as int, replacement_addr as int) && wide,
                _ => false,
            },
            Err(HookFailureKind::Relocation(off)) => match r {
                Err(HookError::Hook(nm, HookFailure::Relocation { addr, wide, error })) => nm@ == m.name && error.offset == off && addr == m.addr && wide,
                _ => false,
            },
        },
        HookSite::Slot { current } => match r {
            Ok(HookPatch::Slot { slot_addr, replacement_addr: ra, original_addr }) => slot_addr == m.addr
                && ra == replacement_addr && original_addr == current,
            _ => false,
        },
    }
}

struct InlineHook {
    trampoline_addr: usize,
    saved_bytes: Vec<u8>,
    target_addr: usize,
}

enum FnHook {
    Direct(Option<InlineHook>),
    Indirect(Option<usize>),
}

/// A function of the game, bound to an address and possibly hooked. `F` is
/// the function's type. Besides the state, it caches the address at which
/// the original function is called, so that a call needs one read.
pub struct BoundFn<F> {
    pub name: String,
    addr: usize,
    hook: FnHook,
    pub symbol: Option<String>,
    original_fn_cache: usize,
    fn_type: PhantomData<F>,
}

impl<F> View for BoundFn<F> {
    type V = (BoundFnModel, usize);

    closed spec fn view(&self) -> (BoundFnModel, usize) {
        (
            BoundFnModel {
                name: self.name@,
                addr: self.addr,
                symbol: opt_str_view(self.symbol),
                direct: self.hook is Direct,
                hook: match self.hook {
                    FnHook::Direct(Some(h)) => Some(HookRecord::Inline { trampoline_addr: h.trampoline_addr, saved_bytes: h.saved_bytes@ }),
                    FnHook::Direct(None) => None,
                    FnHook::Indirect(Some(a)) => Some(HookRecord::Slot { original_addr: a }),
                    FnHook::Indirect(None) => None,
                },
            },
            self.original_fn_cache,
        )
    }
}

/// Whether `cache` is the fast path for a function in state `m`: 0 while
/// unbound, the address at which its original is called when that is
/// known, and for a bound, unhooked slot function either 0 (nothing read
/// yet) or the address its slot held when it was read.
pub open spec fn cache_ok(m: BoundFnModel, cache: usize) -> bool {
    match original_fn(m) {
        None => cache == 0,
        Some(OriginalFn::Code(a)) => cache == a,
        Some(OriginalFn::StoredIn(_)) => true,
    }
}

impl<F> BoundFn<F> {
    /// Well-formedness: only a bound function is hooked, an inline hook
    /// covers the function's own address, and the cache is sound.
    pub closed spec fn wf(&self) -> bool {
        &&& match self.hook {
            FnHook::Direct(Some(h)) => self.addr != 0 && h.target_addr == self.addr,
            FnHook::Indirect(Some(_)) => self.addr != 0,
            _ => true,
        }
        &&& cache_ok(self@.0, self.original_fn_cache)
    }

    /// A function hooked by patching its code.
    pub fn direct(name: &str, symbol: Option<&str>) -> (b: BoundFn<F>)
        ensures
            b.wf(),
            b@.0 == (BoundFnModel {
                name: name@,
                addr: 0,
                symbol: match symbol {
                    Some(s) => Some(s@),
                    None => None,
                },
                direct: true,
                hook: None,
            }),
            b@.1 == 0,
    {
        BoundFn {
            name: name.to_owned(),
            addr: 0,
            hook: FnHook::Direct(None),
            symbol: match symbol {
                Some(s) => Some(s.to_owned()),
                None => None,
            },
            original_fn_cache: 0,
            fn_type: PhantomData,
        }
    }

    /// A function hooked by rewriting its symbol pointer.
    pub fn indirect(name: &str) -> (b: BoundFn<F>)
        ensures
            b.wf(),
            b@.0 == (BoundFnModel { name: name@, addr: 0, symbol: None, direct: false, hook: None }),
            b@.1 == 0,
    {
        BoundFn {
            name: name.to_owned(),
            addr: 0,
            hook: FnHook::Indirect(None),
            symbol: None,
            original_fn_cache: 0,
            fn_type: PhantomData,
        }
    }

    /// The bound address; 0 while unbound.
    pub fn get_addr(&self) -> (a: usize)
        ensures
            a == self@.0.addr,
    {
        self.addr
    }

    /// Whether the function is hooked by patching its code (`true`) or by
    /// rewriting the slot that holds its address (`false`).
    pub fn is_direct(&self) -> (b: bool)
        ensures
            b == self@.0.direct,
    {
        match &self.hook {
            FnHook::Direct(_) => true,
            FnHook::Indirect(_) => false,
        }
    }

    /// Whether a hook is installed.
    pub fn is_hooked(&self) -> (b: bool)
        ensures
            b == self@.0.hook is Some,
    {
        match &self.hook {
            FnHook::Direct(h) => h.is_some(),
            FnHook::Indirect(h) => h.is_some(),
        }
    }

    /// Bind the function to `addr`; a function is bound at most once. A
    /// direct function's cache becomes `addr`; an indirect one's is filled by
    /// `prime_cache` with what the slot holds.
    pub fn bind(&mut self, addr: usize) -> (r: Result<(), BindError>)
        requires
            old(self).wf(),
        ensures
            final(self).wf(),
            bind_outcome(old(self)@.0, final(self)@.0, Some(addr), r),
            r is Ok && old(self)@.0.direct ==> final(self)@.1 == addr,
            r is Ok && !old(self)@.0.direct ==> final(self)@.1 == 0,
            r is Err ==> final(self)@.1 == old(self)@.1,
    {
        if self.addr == 0 {
            self.addr = addr;
            self.original_fn_cache = match &self.hook {
                FnHook::Direct(_) => addr,
                FnHook::Indirect(_) => 0,
            };
            Ok(())
        } else {
            Err(BindError::AlreadyBound(self.name.clone()))
        }
    }

    /// Record what the slot of a bound, unhooked indirect function holds, as
    /// the fast path to its original.
    pub fn prime_cache(&mut self, slot_value: usize)
        requires
            old(self).wf(),
            !old(self)@.0.direct,
            old(self)@.0.addr != 0,
            old(self)@.0.hook is None,
        ensures
            final(self).wf(),
            final(self)@ == (old(self)@.0, slot_value),
    {
        self.original_fn_cache = slot_value;
    }

    /// Bind to the address `dlsym` found, if it found one.
    pub fn bind_dlsym(&mut self, dlsym: Option<usize>) -> (r: Result<(), BindError>)
        requires
            old(self).wf(),
        ensures
            final(self).wf(),
            bind_outcome(old(self)@.0, final(self)@.0, dlsym, r),
    {
        match dlsym {
            Some(addr) => self.bind(addr),
            None => Err(self.not_found()),
        }
    }

    /// Bind by the Mach-O symbol table of the executable.
    pub fn bind_macho_symbol(&mut self, symbols: &MachSymbols, sym_name: &str) -> (r: Result<(), BindError>)
        requires
            old(self).wf(),
            symbols.wf(),
        ensures
            final(self).wf(),
            bind_outcome(old(self)@.0, final(self)@.0, symbols.symbols.spec_get(sym_name@), r),
    {
        match macho_symbol_lookup(symbols, sym_name) {
            Some(addr) => self.bind(addr),
            None => Err(self.not_found()),
        }
    }

    /// Bind to the symbol pointer slot of an imported function, falling back
    /// on `dlsym` and then on the symbol table.
    pub fn bind_stub_entry(&mut self, symbols: &MachSymbols, sym_name: &str, dlsym: Option<usize>) -> (r: Result<(), BindError>)
        requires
            old(self).wf(),
            symbols.wf(),
        ensures
            final(self).wf(),
            bind_outcome(
                old(self)@.0,
                final(self)@.0,
                first_found(symbols.stubs.spec_get(sym_name@), dlsym, symbols.symbols.spec_get(sym_name@)),
                r,
            ),
    {
        if let Some(addr) = stub_pointer_lookup(symbols, sym_name) {
            return self.bind(addr);
        }
        if let Some(addr) = dlsym {
            return self.bind(addr);
        }
        if let Some(addr) = macho_symbol_lookup(symbols, sym_name) {
            return self.bind(addr);
        }
        Err(self.not_found())
    }

    /// The same as `bind_stub_entry`, under the name the Linux build uses.
    pub fn bind_got_entry(&mut self, symbols: &MachSymbols, sym_name: &str, dlsym: Option<usize>) -> (r: Result<(), BindError>)
        requires
            old(self).wf(),
            symbols.wf(),
        ensures
            final(self).wf(),
            bind_outcome(
                old(self)@.0,
                final(self)@.0,
                first_found(symbols.stubs.spec_get(sym_name@), dlsym, symbols.symbols.spec_get(sym_name@)),
                r,
            ),
    {
        self.bind_stub_entry(symbols, sym_name, dlsym)
    }

    /// Bind to the address `dlsym` found, falling back on the symbol table.
    pub fn bind_symbol(&mut self, symbols: &MachSymbols, sym_name: &str, dlsym: Option<usize>) -> (r: Result<(), BindError>)
        requires
            old(self).wf(),
            symbols.wf(),
        ensures
            final(self).wf(),
            bind_outcome(old(self)@.0, final(self)@.0, first_found(dlsym, symbols.symbols.spec_get(sym_name@), None), r),
    {
        if let Some(addr) = dlsym {
            return self.bind(addr);
        }
        if let Some(addr) = macho_symbol_lookup(symbols, sym_name) {
            return self.bind(addr);
        }
        Err(self.not_found())
    }

    /// Check that the function can be hooked and give the address to read
    /// the hook site from.
    pub fn hook_target(&self) -> (r: Result<usize, HookError>)
        requires
            self.wf(),
        ensures
            refusal_matches(self@.0, r),
            can_hook(self@.0) ==> r == Ok::<usize, HookError>(self@.0.addr),
    {
        if self.addr == 0 {
            return Err(HookError::Unbound(self.name.clone()));
        }
        if self.is_hooked() {
            return Err(self.already_hooked());
        }
        Ok(self.addr)
    }

    /// Compute the writes that redirect the function to `replacement_addr`.
    /// For a direct function `site` holds its first bytes (at least
    /// `2 * MAX_PROLOGUE_COPY` of them) and the address of a trampoline page
    /// near it; for an indirect one, what its slot holds.
    pub fn hook(&self, replacement_addr: usize, site: &HookSite) -> (r: Result<HookPatch, HookError>)
        requires
            self.wf(),
            site_fits64(self@.0, *site),
        ensures
            refusal_matches(self@.0, r),
            can_hook(self@.0) ==> hook_outcome64(self@.0, replacement_addr, *site, r),
    {
        let addr = self.hook_target()?;
        match site {
            HookSite::Code { bytes, trampoline_addr } => {
                let patch_size = jmp_patch_size(addr, replacement_addr);
                let prologue_len = match prologue_copy_len(bytes.as_slice(), patch_size) {
                    Ok(n) => n,
                    Err(e) => return Err(HookError::Hook(self.name.clone(), HookFailure::Prologue { addr, patch_size, wide: true, error: e })),
                };
                let trampoline = match build_trampoline(bytes.as_slice(), prologue_len, addr, *trampoline_addr) {
                    Ok(t) => t,
                    Err(e) => return Err(HookError::Hook(self.name.clone(), HookFailure::Relocation { addr, wide: true, error: e })),
                };
                let patch = build_hook_patch(addr, replacement_addr, prologue_len);
                let mut saved_bytes: Vec<u8> = Vec::new();
                let mut i: usize = 0;
                while i < prologue_len
                    invariant
                        i <= prologue_len,
                        prologue_len <= bytes@.len(),
                        saved_bytes@ == bytes@.take(i as int),
                    decreases prologue_len - i,
                {
                    saved_bytes.push(bytes[i]);
                    i = i + 1;
                    assert(saved_bytes@ =~= bytes@.take(i as int));
                }
                Ok(HookPatch::Inline { target_addr: addr, trampoline_addr: *trampoline_addr, trampoline, patch, saved_bytes })
            },
            HookSite::Slot { current } => Ok(HookPatch::Slot { slot_addr: addr, replacement_addr, original_addr: *current }),
        }
    }

    /// Record the hook whose patch the application has written; the fast
    /// path then leads to the trampoline, or to the address the slot held.
    pub fn hook_installed(&mut self, patch: HookPatch)
        requires
            old(self).wf(),
            old(self)@.0.addr != 0,
            old(self)@.0.hook is None,
            match patch {
                HookPatch::Inline { target_addr, .. } => old(self)@.0.direct && target_addr == old(self)@.0.addr,
                HookPatch::Slot { slot_addr, .. } => !old(self)@.0.direct && slot_addr == old(self)@.0.addr,
            },
        ensures
            final(self).wf(),
            final(self)@.0 == after_hook(old(self)@.0, record_of(patch)),
            original_fn(final(self)@.0) == Some(OriginalFn::Code(final(self)@.1)),
    {
        match patch {
            HookPatch::Inline { target_addr, trampoline_addr, saved_bytes, .. } => {
                self.hook = FnHook::Direct(Some(InlineHook { trampoline_addr, saved_bytes, target_addr }));
                self.original_fn_cache = trampoline_addr;
            },
            HookPatch::Slot { original_addr, .. } => {
                self.hook = FnHook::Indirect(Some(original_addr));
                self.original_fn_cache = original_addr;
            },
        }
    }

    /// Remove the hook, giving the writes that undo its patch; the fast path
    /// leads to the function (or to the function the slot held) again.
    pub fn unhook(&mut self) -> (r: Result<Restore, UnhookError>)
        requires
            old(self).wf(),
        ensures
            final(self).wf(),
            unhook_outcome(old(self)@.0, final(self)@.0, r),
            old(self)@.0.hook is None ==> final(self)@.1 == old(self)@.1,
            old(self)@.0.hook matches Some(HookRecord::Slot { original_addr }) ==> final(self)@.1 == original_addr,
            old(self)@.0.hook matches Some(HookRecord::Inline { .. }) ==> final(self)@.1 == old(self)@.0.addr,
    {
        let addr = self.addr;
        match &mut self.hook {
            FnHook::Direct(h) => match h.take() {
                Some(hook) => {
                    self.original_fn_cache = hook.target_addr;
                    Ok(Restore::Inline { target_addr: hook.target_addr, bytes: hook.saved_bytes })
                },
                None => Err(UnhookError::NotHooked(self.name.clone())),
            },
            FnHook::Indirect(h) => match h.take() {
                Some(original) => {
                    self.original_fn_cache = original;
                    Ok(Restore::Slot { slot_addr: addr, value: original })
                },
                None => Err(UnhookError::NotHooked(self.name.clone())),
            },
        }
    }

    /// Where the original function can be called; `None` while unbound.
    pub fn original_fn_addr(&self) -> (r: Option<OriginalFn>)
        requires
            self.wf(),
        ensures
            r == original_fn(self@.0),
    {
        match &self.hook {
            FnHook::Direct(Some(h)) => Some(OriginalFn::Code(h.trampoline_addr)),
            FnHook::Indirect(Some(a)) => Some(OriginalFn::Code(*a)),
            FnHook::Direct(None) => if self.addr != 0 { Some(OriginalFn::Code(self.addr)) } else { None },
            FnHook::Indirect(None) => if self.addr != 0 { Some(OriginalFn::StoredIn(self.addr)) } else { None },
        }
    }

    /// The cached address of the original function: 0 while unbound, the
    /// address at which the original is called when that is known, and for
    /// an unhooked slot function what its slot held when it was read (0
    /// before that).
    pub fn original_fn_addr_fast(&self) -> (a: usize)
        requires
            self.wf(),
        ensures
            a == self@.1,
            cache_ok(self@.0, a),
    {
        self.original_fn_cache
    }

    /// Where to call the original of a function that must be bound by now:
    /// the cached address when there is one, otherwise as `original_fn_addr`.
    pub fn original_fn_addr_or_panic(&self) -> (r: OriginalFn)
        requires
            self.wf(),
            self@.0.addr != 0,
        ensures
            self@.1 != 0 ==> r == OriginalFn::Code(self@.1),
            self@.1 == 0 ==> Some(r) == original_fn(self@.0),
    {
        let cached = self.original_fn_addr_fast();
        if cached != 0 {
            return OriginalFn::Code(cached);
        }
        match self.original_fn_addr() {
            Some(f) => f,
            None => {
                assert(false);
                OriginalFn::Code(0)
            },
        }
    }

    /// The error for a function whose address was not found.
    pub fn not_found(&self) -> (e: BindError)
        ensures
            match e {
                BindError::NotFound(n) => n@ == self@.0.name,
                _ => false,
            },
    {
        BindError::NotFound(self.name.clone())
    }

    /// The error for hooking a function twice.
    pub fn already_hooked(&self) -> (e: HookError)
        ensures
            match e {
                HookError::AlreadyHooked(n) => n@ == self@.0.name,
                _ => false,
            },
    {
        HookError::AlreadyHooked(self.name.clone())
    }

    /// The error for removing a hook that is not there.
    pub fn not_hooked(&self) -> (e: UnhookError)
        ensures
            match e {
                UnhookError::NotHooked(n) => n@ == self@.0.name,
                _ => false,
            },
    {
        UnhookError::NotHooked(self.name.clone())
    }
}


/// The fast path always agrees with `original_fn_addr`: it is 0 exactly
/// while the function is unbound or is a slot function whose slot was not
/// read yet, and otherwise the address at which the original is called.
pub proof fn law_fast_path_matches_original(m: BoundFnModel, cache: usize)
    requires
        cache_ok(m, cache),
    ensures
        original_fn(m) is None ==> cache == 0,
        original_fn(m) matches Some(OriginalFn::Code(a)) ==> cache == a,
        original_fn(m) matches Some(OriginalFn::Code(a)) && a != 0 ==> cache != 0,
{
}

/// The unsigned value of the little-endian 64-bit field at `at`.
pub open spec fn le_u64(s: Seq<u8>, at: int) -> int {
    le_u32(s, at) + 0x1_0000_0000 * le_u32(s, at + 4)
}

proof fn lemma_field64_roundtrip(v: int)
    ensures
        field64(v).len() == 8,
        le_u64(field64(v), 0) == v % 0x1_0000_0000_0000_0000,
{
    let u = v % 0x1_0000_0000_0000_0000;
    let x = u as u64;
    assert(x as int == u);
    reveal_with_fuel(pow256, 8);
    assert(pow256(1) == 256);
    assert(pow256(2) == 65536);
    assert(pow256(3) == 16777216);
    assert(pow256(4) == 4294967296);
    assert(pow256(5) == 1099511627776);
    assert(pow256(6) == 281474976710656);
    assert(pow256(7) == 72057594037927936);
    let f = field64(v);
    assert(x == (x % 256) + 256 * ((x / 256) % 256) + 65536 * ((x / 65536) % 256) + 16777216 * ((x
        / 16777216) % 256) + 4294967296 * ((x / 4294967296) % 256) + 1099511627776 * ((x
        / 1099511627776) % 256) + 281474976710656 * ((x / 281474976710656) % 256)
        + 72057594037927936 * ((x / 72057594037927936) % 256)) by (bit_vector);
    assert forall|k: int| 0 <= k < 8 implies #[trigger] f[k] as int == (u / pow256(k)) % 256 by {
        assert(f[k] == ((u / pow256(k)) % 256) as u8);
        assert(pow256(k) > 0);
    }
    assert(u / 1 == u);
    assert(f[0] as int == x % 256);
    assert(f[1] as int == (x / 256) % 256);
    assert(f[2] as int == (x / 65536) % 256);
    assert(f[3] as int == (x / 16777216) % 256);
    assert(f[4] as int == (x / 4294967296) % 256);
    assert(f[5] as int == (x / 1099511627776) % 256);
    assert(f[6] as int == (x / 281474976710656) % 256);
    assert(f[7] as int == (x / 72057594037927936) % 256);
}

/// The hook patch is a jump to the replacement: a `JMP rel32` whose
/// displacement lands on it when it is within reach, otherwise
/// `JMP [RIP+0]` followed by its 8-byte address; then `NOP`s.
pub proof fn law_hook_patch64_jumps(addr: int, replacement_addr: int, prologue_len: int)
    requires
        jmp_size(addr, replacement_addr) <= prologue_len,
        0 <= replacement_addr < 0x1_0000_0000_0000_0000,
    ensures
        ({
            let p = hook_patch64(addr, replacement_addr, prologue_len);
            let k = jmp_size(addr, replacement_addr) as int;
            &&& p.len() == prologue_len
            &&& rel32_reaches(addr, replacement_addr) ==> p[0] == 0xE9 && addr + 5 + le_i32(p, 1) == replacement_addr
            &&& !rel32_reaches(addr, replacement_addr) ==> p.subrange(0, 6) == seq![0xFFu8, 0x25u8, 0u8, 0u8, 0u8, 0u8]
                && le_u64(p, 6) == replacement_addr
            &&& forall|i: int| k <= i < prologue_len ==> p[i] == 0x90
        }),
{
    let p = hook_patch64(addr, replacement_addr, prologue_len);
    if rel32_reaches(addr, replacement_addr) {
        let d = replacement_addr - (addr + 5);
        lemma_field32_roundtrip(d);
        assert(le_i32(p, 1) == le_i32(field32(d), 0));
    } else {
        lemma_field64_roundtrip(replacement_addr);
        assert(le_u64(p, 6) == le_u64(field64(replacement_addr), 0));
        assert(p.subrange(0, 6) =~= seq![0xFFu8, 0x25u8, 0u8, 0u8, 0u8, 0u8]);
    }
}

/// Whether `i` is the start of one of the instructions that make up the
/// bytes from `from` to `to`.
pub open spec fn insn_start64(code: Seq<u8>, from: int, to: int, i: int) -> bool
    decreases to - from,
{
    if from >= to || from < 0 {
        false
    } else {
        match insn_len64(code, from) {
            Some(l) => if from + l <= to {
                proof {
                    lemma_insn_len64_bounds(code, from);
                }
                i == from || insn_start64(code, from + l, to, i)
            } else {
                false
            },
            None => false,
        }
    }
}

/// What moving the instruction of length `l` at `i` keeps: a `CALL/JMP
/// rel32` still lands on its target; an instruction whose opcode belongs to
/// one of the decoder's classes that take a ModR/M byte, with `mod` 00 and
/// `r/m` 101 (RIP-relative), gets its displacement raised by `delta` (the
/// distance the code moved back), so that from its new place it designates
/// the same address, unless the raised displacement does not fit in 32 bits;
/// every other byte is unchanged.
#[verifier::opaque]
pub open spec fn moved_faithfully(code: Seq<u8>, i: int, l: int, delta: int, m: Seq<u8>) -> bool {
    let p = prefix_len64(code, i) as int;
    let mm = if code[i + p] == 0x0F { p + 2 } else { p + 1 };
    let op = code[i + p];
    let has_modrm = takes_modrm_only64(op) || takes_modrm_imm8_64(op) || takes_modrm_imm32_64(op) || op == 0xF6
        || op == 0xF7 || (op == 0x0F && !(0x80 <= code[i + p + 1] <= 0x8F));
    let rip = has_modrm && mm < l && modrm_mod(code[i + mm]) == 0 && modrm_rm(code[i + mm]) == 5 && mm + 5 <= l
        && fits_i32(le_i32(code, i + mm + 1) + delta);
    &&& m.len() == l
    &&& is_branch64(code, i, l) ==> le_i32(m, l - 4) == le_i32(code, i + l - 4) + delta
    &&& rip && !is_branch64(code, i, l) ==> le_i32(m, mm + 1) == le_i32(code, i + mm + 1) + delta
    &&& forall|j: int| 0 <= j < l && !(is_branch64(code, i, l) && l - 4 <= j) && !(rip && mm + 1 <= j < mm + 5) ==> m[j] == code[i + j]
}

proof fn lemma_move_insn64(code: Seq<u8>, i: int, l: int, delta: int)
    requires
        0 <= i,
        0 <= l,
        insn_len64(code, i) == Some(l as nat),
        move_insn64(code, i, l, delta) is Ok,
    ensures
        moved_faithfully(code, i, l, delta, move_insn64(code, i, l, delta)->Ok_0),
{
    reveal(moved_faithfully);
    lemma_insn_len64_bounds(code, i);
    let p = prefix_len64(code, i) as int;
    let mm = if code[i + p] == 0x0F { p + 2 } else { p + 1 };
    let a = rip_fixed(code, i, l, delta);
    let ins = code.subrange(i, i + l);
    if takes_modrm64(code, i + p) && mm < l && modrm_mod(code[i + mm]) == 0 && modrm_rm(code[i + mm]) == 5 && mm + 5 <= l {
        let nd = le_i32(code, i + mm + 1) + delta;
        if fits_i32(nd) {
            lemma_field32_roundtrip(nd);
            assert(le_i32(a, mm + 1) == le_i32(field32(nd), 0));
        }
    }
    assert(a.len() == l);
    if is_branch64(code, i, l) {
        let nr = le_i32(code, i + l - 4) + delta;
        lemma_field32_roundtrip(nr);
        let m = a.subrange(0, l - 4) + field32(nr);
        assert(le_i32(m, l - 4) == le_i32(field32(nr), 0));
    }
}

/// The starts of the instructions in the bytes from `from` to `to` when
/// they split into whole instructions.
proof fn lemma_relocate64_shape(code: Seq<u8>, from: int, to: int, delta: int)
    requires
        0 <= from <= to <= code.len(),
        relocate64(code, from, to, delta) is Ok,
    ensures
        relocate64(code, from, to, delta)->Ok_0.len() == to - from,
        forall|i: int| #[trigger] insn_start64(code, from, to, i) ==> {
            let r = relocate64(code, from, to, delta)->Ok_0;
            let l = insn_len64(code, i)->Some_0 as int;
            &&& insn_len64(code, i) is Some
            &&& from <= i && i + l <= to
            &&& move_insn64(code, i, l, delta) is Ok
            &&& r.subrange(i - from, i - from + l) == move_insn64(code, i, l, delta)->Ok_0
        },
    decreases to - from,
{
    if from < to {
        let l = insn_len64(code, from)->Some_0;
        lemma_insn_len64_bounds(code, from);
        let r = relocate64(code, from, to, delta)->Ok_0;
        let rest = relocate64(code, from + l, to, delta)->Ok_0;
        lemma_relocate64_shape(code, from + l, to, delta);
        let m = move_insn64(code, from, l as int, delta)->Ok_0;
        lemma_move_insn64(code, from, l as int, delta);
        assert(r == m + rest);
        assert forall|i: int| #[trigger] insn_start64(code, from, to, i) implies {
            let l2 = insn_len64(code, i)->Some_0 as int;
            &&& insn_len64(code, i) is Some
            &&& from <= i && i + l2 <= to
            &&& move_insn64(code, i, l2, delta) is Ok
            &&& r.subrange(i - from, i - from + l2) == move_insn64(code, i, l2, delta)->Ok_0
        } by {
            if i == from {
                assert(r.subrange(0, l as int) =~= m);
            } else {
                assert(insn_start64(code, from + l, to, i));
                let l2 = insn_len64(code, i)->Some_0 as int;
                let k = i - from;
                assert(r.subrange(k, k + l2) =~= rest.subrange(k - l, k - l + l2));
            }
        }
    }
}

/// A trampoline does what the moved prologue did: each moved instruction
/// keeps its branch target and its RIP-relative operand (where it could be
/// adjusted) and the rest of its bytes, and the trampoline ends with a jump
/// back to the first instruction after the prologue.
pub proof fn law_trampoline64_preserves_prologue(code: Seq<u8>, n: int, target_addr: int, trampoline_addr: int)
    requires
        0 <= n <= code.len(),
        0 <= target_addr + n < 0x1_0000_0000_0000_0000,
        trampoline64(code, n, target_addr, trampoline_addr) is Ok,
    ensures
        ({
            let t = trampoline64(code, n, target_addr, trampoline_addr)->Ok_0;
            let back = t.subrange(n, t.len() as int);
            &&& back == jmp64(trampoline_addr + n, target_addr + n)
            &&& rel32_reaches(trampoline_addr + n, target_addr + n) ==> back[0] == 0xE9 && trampoline_addr + n + 5 + le_i32(back, 1) == target_addr + n
            &&& !rel32_reaches(trampoline_addr + n, target_addr + n) ==> le_u64(back, 6) == target_addr + n
            &&& forall|i: int| #[trigger] insn_start64(code, 0, n, i) ==> moved_faithfully(
                code,
                i,
                insn_len64(code, i)->Some_0 as int,
                target_addr - trampoline_addr,
                t.subrange(i, i + insn_len64(code, i)->Some_0 as int),
            )
        }),
{
    let d = target_addr - trampoline_addr;
    lemma_relocate64_shape(code, 0, n, d);
    let moved = relocate64(code, 0, n, d)->Ok_0;
    let j = jmp64(trampoline_addr + n, target_addr + n);
    let t = moved + j;
    assert(t.subrange(n, t.len() as int) =~= j);
    if rel32_reaches(trampoline_addr + n, target_addr + n) {
        let v = (target_addr + n) - (trampoline_addr + n + 5);
        lemma_field32_roundtrip(v);
        assert(le_i32(j, 1) == le_i32(field32(v), 0));
    } else {
        lemma_field64_roundtrip(target_addr + n);
        assert(le_u64(j, 6) == le_u64(field64(target_addr + n), 0));
    }
    assert forall|i: int| #[trigger] insn_start64(code, 0, n, i) implies moved_faithfully(
        code,
        i,
        insn_len64(code, i)->Some_0 as int,
        d,
        t.subrange(i, i + insn_len64(code, i)->Some_0 as int),
    ) by {
        let l = insn_len64(code, i)->Some_0 as int;
        lemma_move_insn64(code, i, l, d);
        assert(t.subrange(i, i + l) =~= moved.subrange(i, i + l));
    }
}


/// Removing an inline hook undoes it: the function is left as it was
/// before, and the restore writes back, at the patched address, exactly the
/// bytes the patch covered.
pub proof fn law_unhook_undoes_inline_hook64(
    m: BoundFnModel,
    bytes: Seq<u8>,
    replacement_addr: usize,
    trampoline_addr: usize,
    rs: Restore,
)
    requires
        can_hook(m),
        m.direct,
        bytes.len() >= 2 * MAX_PROLOGUE_COPY,
        bytes.len() <= usize::MAX,
        inline_plan64(bytes, m.addr, replacement_addr, trampoline_addr) is Ok,
        restores(
            after_hook(
                m,
                HookRecord::Inline {
                    trampoline_addr,
                    saved_bytes: bytes.take(inline_plan64(bytes, m.addr, replacement_addr, trampoline_addr)->Ok_0.0 as int),
                },
            ),
            rs,
        ),
    ensures
        ({
            let n = inline_plan64(bytes, m.addr, replacement_addr, trampoline_addr)->Ok_0.0;
            let rec = HookRecord::Inline { trampoline_addr, saved_bytes: bytes.take(n as int) };
            &&& after_unhook(after_hook(m, rec)) == m
            &&& original_fn(after_hook(m, rec)) == Some(OriginalFn::Code(trampoline_addr))
            &&& rs matches Restore::Inline { target_addr, bytes: back } && target_addr == m.addr
                && back@ == bytes.take(n as int) && back@.len() == hook_patch64(
                m.addr as int,
                replacement_addr as int,
                n as int,
            ).len()
        }),
{
    let k = jmp_size(m.addr as int, replacement_addr as int) as int;
    let n = inline_plan64(bytes, m.addr, replacement_addr, trampoline_addr)->Ok_0.0;
    lemma_scan64_splits(bytes, 0, k);
    assert(hook_patch64(m.addr as int, replacement_addr as int, n as int).len() == n);
    assert(after_unhook(after_hook(m, HookRecord::Inline { trampoline_addr, saved_bytes: bytes.take(n as int) })) =~= m);
}

} // verus!
