//! Hooking and binding of game functions on Linux (32-bit x86 game binary).
//!
//! Direct hooks patch a function's prologue with a `JMP rel32` to the
//! replacement; the overwritten instructions are copied to a trampoline that
//! jumps back into the function. Indirect hooks overwrite a GOT slot. This
//! module computes every byte that is written and keeps the binding and
//! hooking state; the application performs the writes.

use vstd::prelude::*;
use std::marker::PhantomData;
use crate::process_linux::{ProcessSymbols, elf_symbol_lookup, got_entry_lookup};
use crate::process_linux::{opt_str_view};
use crate::text::{dec, dec_string, hex, hex_string};
use crate::x86::{
    field32, field32_bytes, fits_i32, jmp_rel32, le_i32, le_u32, lemma_field32_roundtrip, modrm_len, modrm_reg, read_le_i32,
};

verus! {

/// Size of the inline patch: `JMP rel32` is 5 bytes.
pub const JMP_PATCH_SIZE: usize = 5;

/// Upper bound on the prologue bytes the scan may consider.
pub const MAX_PROLOGUE_COPY: usize = 16;

/// Opcodes of the ALU family `op r/m, r` and `op r, r/m` (00-03, 08-0B, ..., 38-3B).
pub open spec fn is_alu_modrm(op: u8) -> bool {
    op < 0x40 && op % 8 < 4
}

/// Opcodes of the ALU family `op AL, imm8` (04, 0C, ..., 3C).
pub open spec fn is_alu_al_imm8(op: u8) -> bool {
    op < 0x40 && op % 8 == 4
}

/// Opcodes of the ALU family `op EAX, imm32` (05, 0D, ..., 3D).
pub open spec fn is_alu_eax_imm32(op: u8) -> bool {
    op < 0x40 && op % 8 == 5
}

/// One-byte opcodes whose only operand bytes are a ModR/M byte and what it
/// calls for.
pub open spec fn takes_modrm_only32(op: u8) -> bool {
    ||| is_alu_modrm(op)
    ||| op == 0x84 || op == 0x85  // TEST r/m, r
    ||| 0x86 <= op <= 0x8B  // XCHG, MOV
    ||| op == 0x8D  // LEA
    ||| op == 0xFF  // INC/DEC/CALL/JMP/PUSH r/m
    ||| 0xD0 <= op <= 0xD3  // shift/rotate by 1 or CL

}

/// One-byte opcodes with a ModR/M byte followed by an 8-bit immediate.
pub open spec fn takes_modrm_imm8_32(op: u8) -> bool {
    op == 0xC6 || op == 0x80 || op == 0x82 || op == 0x83 || op == 0xC0 || op == 0xC1
}

/// One-byte opcodes with a ModR/M byte followed by a 32-bit immediate.
pub open spec fn takes_modrm_imm32_32(op: u8) -> bool {
    op == 0xC7 || op == 0x81
}

/// The length of the 32-bit x86 instruction that starts at `at`, for the
/// opcodes the decoder knows; `None` for the others. The decoder reads at
/// most four bytes.
pub open spec fn insn_len32(code: Seq<u8>, at: int) -> Option<nat> {
    let op = code[at];
    if (0x50 <= op <= 0x5F) || (0x40 <= op <= 0x4F) || op == 0x90 || op == 0xC3 || op == 0xCC
        || op == 0xF4 || op == 0x99 || op == 0x9C || op == 0x9D || op == 0xC9 {
        // PUSH/POP/INC/DEC reg, NOP, RET, INT3, HLT, CDQ, PUSHFD, POPFD, LEAVE
        Some(1)
    } else if op == 0xEB || (0x70 <= op <= 0x7F) || op == 0x6A || op == 0xA8 || is_alu_al_imm8(op) {
        // short jumps, PUSH imm8, TEST AL imm8, ALU AL imm8
        Some(2)
    } else if op == 0xC2 {
        // RET imm16
        Some(3)
    } else if op == 0xE8 || op == 0xE9 || (0xB8 <= op <= 0xBF) || op == 0x68 || op == 0xA9 || (0xA0
        <= op <= 0xA3) || is_alu_eax_imm32(op) {
        // CALL/JMP rel32, MOV reg imm32, PUSH imm32, TEST EAX imm32, MOV moffs, ALU EAX imm32
        Some(5)
    } else if op == 0x0F {
        let op2 = code[at + 1];
        if 0x80 <= op2 <= 0x8F {
            // Jcc rel32
            Some(6)
        } else {
            Some(2 + modrm_len(code[at + 2], code[at + 3]))
        }
    } else if takes_modrm_only32(op) {
        Some(1 + modrm_len(code[at + 1], code[at + 2]))
    } else if takes_modrm_imm8_32(op) {
        Some(2 + modrm_len(code[at + 1], code[at + 2]))
    } else if takes_modrm_imm32_32(op) {
        Some(5 + modrm_len(code[at + 1], code[at + 2]))
    } else if op == 0xF6 || op == 0xF7 {
        // group 3: TEST (reg 0 and 1) carries an immediate, the others do not
        let imm = if modrm_reg(code[at + 1]) <= 1 {
            if op == 0xF6 { 1nat } else { 4nat }
        } else {
            0nat
        };
        Some(1 + modrm_len(code[at + 1], code[at + 2]) + imm)
    } else {
        None
    }
}

/// Bytes consumed by the ModR/M byte at `at` with its SIB byte and displacement.
pub fn modrm_extra_len(code: &[u8], at: usize) -> (r: usize)
    requires
        at + 2 <= code@.len(),
    ensures
        r == modrm_len(code@[at as int], code@[at as int + 1]),
        1 <= r <= 6,
{
    let modrm = code[at];
    let mode = modrm >> 6;
    let rm = modrm & 7;
    assert(mode == modrm / 64 && rm == modrm % 8) by (bit_vector)
        requires
            mode == modrm >> 6,
            rm == modrm & 7,
    ;
    match mode {
        0b00 => {
            if rm == 0b100 {
                let sib = code[at + 1];
                let base = sib & 7;
                assert(base == sib % 8) by (bit_vector)
                    requires
                        base == sib & 7,
                ;
                if base == 0b101 {
                    1 + 1 + 4  // ModRM + SIB + disp32

                } else {
                    1 + 1  // ModRM + SIB

                }
            } else if rm == 0b101 {
                1 + 4  // ModRM + disp32

            } else {
                1  // ModRM only

            }
        },
        0b01 => {
            if rm == 0b100 {
                1 + 1 + 1  // ModRM + SIB + disp8

            } else {
                1 + 1  // ModRM + disp8

            }
        },
        0b10 => {
            if rm == 0b100 {
                1 + 1 + 4  // ModRM + SIB + disp32

            } else {
                1 + 4  // ModRM + disp32

            }
        },
        _ => {
            1  // register operand

        },
    }
}

/// Decode the length of the 32-bit x86 instruction that starts at `at`.
#[verifier::rlimit(40)]
#[verifier::spinoff_prover]
pub fn x86_insn_len(code: &[u8], at: usize) -> (r: Option<usize>)
    requires
        at + 4 <= code@.len(),
    ensures
        r matches Some(n) ==> insn_len32(code@, at as int) == Some(n as nat),
        r is None ==> insn_len32(code@, at as int) is None,
        r matches Some(n) ==> 1 <= n <= 11,
{
    let op = code[at];
    match op {
        0x50..=0x57 => Some(1),  // PUSH reg
        0x58..=0x5F => Some(1),  // POP reg
        0x90 => Some(1),  // NOP
        0xC3 => Some(1),  // RET
        0xCC => Some(1),  // INT3
        0xF4 => Some(1),  // HLT
        0x99 => Some(1),  // CDQ
        0x9C => Some(1),  // PUSHFD
        0x9D => Some(1),  // POPFD
        0xE8 | 0xE9 => Some(5),  // CALL rel32, JMP rel32
        0xEB => Some(2),  // JMP rel8
        0x70..=0x7F => Some(2),  // Jcc rel8
        0xB8..=0xBF => Some(5),  // MOV reg, imm32
        0x6A => Some(2),  // PUSH imm8
        0x68 => Some(5),  // PUSH imm32
        0x0F => {
            let op2 = code[at + 1];
            match op2 {
                0x80..=0x8F => Some(6),  // Jcc rel32
                _ => Some(2 + modrm_extra_len(code, at + 2)),  // 0F xx with ModRM
            }
        },
        0x00..=0x03 | 0x08..=0x0B | 0x10..=0x13 | 0x18..=0x1B | 0x20..=0x23 | 0x28..=0x2B | 0x30..=0x33
        | 0x38..=0x3B => Some(1 + modrm_extra_len(code, at + 1)),
        0x04 | 0x0C | 0x14 | 0x1C | 0x24 | 0x2C | 0x34 | 0x3C => Some(2),  // ALU AL, imm8
        0x05 | 0x0D | 0x15 | 0x1D | 0x25 | 0x2D | 0x35 | 0x3D => Some(5),  // ALU EAX, imm32
        0x84 | 0x85 => Some(1 + modrm_extra_len(code, at + 1)),  // TEST r/m, r
        0x86..=0x8B => Some(1 + modrm_extra_len(code, at + 1)),  // XCHG, MOV
        0x8D => Some(1 + modrm_extra_len(code, at + 1)),  // LEA
        0xC6 => Some(1 + modrm_extra_len(code, at + 1) + 1),  // MOV r/m, imm8
        0xC7 => Some(1 + modrm_extra_len(code, at + 1) + 4),  // MOV r/m, imm32
        0x80 | 0x83 => Some(1 + modrm_extra_len(code, at + 1) + 1),  // group 1, imm8
        0x81 => Some(1 + modrm_extra_len(code, at + 1) + 4),  // group 1, imm32
        0x82 => Some(1 + modrm_extra_len(code, at + 1) + 1),  // group 1, imm8
        0xC0 | 0xC1 => Some(1 + modrm_extra_len(code, at + 1) + 1),  // shift/rotate imm8
        0xD0..=0xD3 => Some(1 + modrm_extra_len(code, at + 1)),  // shift/rotate
        0x40..=0x4F => Some(1),  // INC/DEC r32
        0xA9 => Some(5),  // TEST EAX, imm32
        0xA8 => Some(2),  // TEST AL, imm8
        0xA0..=0xA3 => Some(5),  // MOV EAX/AL, moffs32 and back
        0xFF => Some(1 + modrm_extra_len(code, at + 1)),  // group 5
        0xF6 | 0xF7 => {
            // group 3: NOT, NEG, MUL, IMUL, DIV, IDIV, TEST
            let modrm = code[at + 1];
            let reg = (modrm >> 3) & 7;
            assert(reg == (modrm / 8) % 8) by (bit_vector)
                requires
                    reg == (modrm >> 3) & 7,
            ;
            let extra = modrm_extra_len(code, at + 1);
            if reg == 0 || reg == 1 {
                if op == 0xF6 {
                    Some(1 + extra + 1)
                } else {
                    Some(1 + extra + 4)
                }
            } else {
                Some(1 + extra)
            }
        },
        0xC2 => Some(3),  // RET imm16
        0xC9 => Some(1),  // LEAVE
        _ => None,
    }
}


/// Why the prologue of a function cannot be copied to a trampoline.
#[derive(Clone, Copy, Debug, PartialEq, Eq, Structural)]
pub enum PrologueError {
    /// The scan passed `MAX_PROLOGUE_COPY` bytes without reaching the patch size.
    TooLong,
    /// The byte at `offset` starts an instruction the decoder does not know.
    UnknownOpcode { opcode: u8, offset: usize },
}

/// Whether the bytes from `from` to `to` are a whole number of decoded
/// instructions.
pub open spec fn splits32(code: Seq<u8>, from: int, to: int) -> bool
    decreases to - from,
{
    if from == to {
        true
    } else if from < to {
        match insn_len32(code, from) {
            Some(l) => if from + l <= to {
                proof {
                    lemma_insn_len32_bounds(code, from);
                }
                splits32(code, from + l, to)
            } else {
                false
            },
            None => false,
        }
    } else {
        false
    }
}

/// The prologue scan: whole instructions are taken from `offset` on until
/// at least `JMP_PATCH_SIZE` bytes are covered.
pub open spec fn prologue_scan32(code: Seq<u8>, offset: int) -> Result<usize, PrologueError>
    decreases MAX_PROLOGUE_COPY - offset,
{
    if offset >= JMP_PATCH_SIZE || offset < 0 {
        Ok(offset as usize)
    } else if offset >= MAX_PROLOGUE_COPY {
        Err(PrologueError::TooLong)
    } else {
        match insn_len32(code, offset) {
            Some(l) => {
                proof {
                    lemma_insn_len32_bounds(code, offset);
                }
                prologue_scan32(code, offset + l)
            },
            None => Err(PrologueError::UnknownOpcode { opcode: code[offset], offset: offset as usize }),
        }
    }
}

/// Every decoded 32-bit instruction is between 1 and 11 bytes long.
pub proof fn lemma_insn_len32_bounds(code: Seq<u8>, at: int)
    ensures
        insn_len32(code, at) matches Some(l) ==> 1 <= l <= 11,
{
}

/// The length of a 32-bit x86 instruction is its opcode (two bytes after
/// `0F`), the ModR/M byte with its SIB byte and displacement where the
/// opcode takes one, and the immediate the opcode carries: none for the
/// ModR/M-only opcodes, one byte for `C6`, `80`, `82`, `83`, `C0`, `C1`, four
/// for `C7` and `81`, one or four for the `TEST` forms of `F6`/`F7`; four for
/// `rel32` branches, 32-bit immediates and `moffs32`; one for `rel8` branches
/// and 8-bit immediates; two for `RET imm16`.
pub proof fn law_insn_len32_parts(code: Seq<u8>, at: int)
    requires
        0 <= at,
        at + 4 <= code.len(),
    ensures
        ({
            let op = code[at];
            let ml = modrm_len(code[at + 1], code[at + 2]) as int;
            let reg = (code[at + 1] / 8) % 8;
            let len = |k: int| Some(k as nat);
            &&& (op == 0x81 || op == 0xC7) ==> insn_len32(code, at) == len(1 + ml + 4)
            &&& (op == 0x80 || op == 0x82 || op == 0x83 || op == 0xC0 || op == 0xC1 || op == 0xC6) ==> insn_len32(code, at)
                == len(1 + ml + 1)
            &&& ((op < 0x40 && op % 8 < 4) || (0x84 <= op <= 0x8B) || op == 0x8D || op == 0xFF || (0xD0 <= op <= 0xD3))
                ==> insn_len32(code, at) == len(1 + ml)
            &&& (op == 0xF6 || op == 0xF7) && reg >= 2 ==> insn_len32(code, at) == len(1 + ml)
            &&& op == 0xF6 && reg <= 1 ==> insn_len32(code, at) == len(1 + ml + 1)
            &&& op == 0xF7 && reg <= 1 ==> insn_len32(code, at) == len(1 + ml + 4)
            &&& op == 0x0F && 0x80 <= code[at + 1] <= 0x8F ==> insn_len32(code, at) == len(6int)
            &&& op == 0x0F && !(0x80 <= code[at + 1] <= 0x8F) ==> insn_len32(code, at) == len(
                2 + modrm_len(code[at + 2], code[at + 3]) as int,
            )
            &&& (op == 0xE8 || op == 0xE9 || (0xB8 <= op <= 0xBF) || op == 0x68 || op == 0xA9 || (0xA0 <= op <= 0xA3)
                || (op < 0x40 && op % 8 == 5)) ==> insn_len32(code, at) == len(5int)
            &&& (op == 0xEB || (0x70 <= op <= 0x7F) || op == 0x6A || op == 0xA8 || (op < 0x40 && op % 8 == 4))
                ==> insn_len32(code, at) == len(2int)
            &&& op == 0xC2 ==> insn_len32(code, at) == len(3int)
            &&& ((0x50 <= op <= 0x5F) || (0x40 <= op <= 0x4F) || op == 0x90 || op == 0xC3 || op == 0xCC || op == 0xF4
                || op == 0x99 || op == 0x9C || op == 0x9D || op == 0xC9) ==> insn_len32(code, at) == len(1int)
        }),
{
}

proof fn lemma_scan32_splits(code: Seq<u8>, offset: int)
    requires
        0 <= offset < MAX_PROLOGUE_COPY,
    ensures
        prologue_scan32(code, offset) matches Ok(n) ==> offset <= n && splits32(code, offset, n as int)
            && JMP_PATCH_SIZE <= n < MAX_PROLOGUE_COPY,
    decreases MAX_PROLOGUE_COPY - offset,
{
    lemma_insn_len32_bounds(code, offset);
    if offset < JMP_PATCH_SIZE {
        if let Some(l) = insn_len32(code, offset) {
            lemma_scan32_splits(code, offset + l);
        }
    }
}

/// The number of prologue bytes to move to a trampoline: whole instructions,
/// at least `JMP_PATCH_SIZE` of them.
pub fn prologue_copy_len(code: &[u8]) -> (r: Result<usize, PrologueError>)
    requires
        code@.len() >= MAX_PROLOGUE_COPY,
    ensures
        r == prologue_scan32(code@, 0),
        r matches Ok(n) ==> JMP_PATCH_SIZE <= n < MAX_PROLOGUE_COPY && splits32(code@, 0, n as int),
{
    proof {
        lemma_scan32_splits(code@, 0);
    }
    let mut offset: usize = 0;
    while offset < JMP_PATCH_SIZE
        invariant
            offset < MAX_PROLOGUE_COPY,
            code@.len() >= MAX_PROLOGUE_COPY,
            prologue_scan32(code@, offset as int) == prologue_scan32(code@, 0),
        decreases MAX_PROLOGUE_COPY - offset,
    {
        if offset >= MAX_PROLOGUE_COPY {
            return Err(PrologueError::TooLong);
        }
        match x86_insn_len(code, offset) {
            Some(len) => offset = offset + len,
            None => {
                return Err(PrologueError::UnknownOpcode { opcode: code[offset], offset });
            },
        }
    }
    Ok(offset)
}


/// Why a trampoline cannot be built.
#[derive(Clone, Copy, Debug, PartialEq, Eq, Structural)]
pub struct BranchOutOfRange {
    /// Offset of the branch in the prologue.
    pub offset: usize,
    /// `E8` (CALL) or `E9` (JMP).
    pub opcode: u8,
    /// Where the branch lands.
    pub branch_target: i128,
    /// The end of the moved branch in the trampoline.
    pub trampoline_end: i128,
}

/// Whether the instruction of length `l` at `at` is a `CALL rel32` or a
/// `JMP rel32`, whose displacement must be adjusted when it moves.
pub open spec fn is_rel32_branch(code: Seq<u8>, at: int, l: nat) -> bool {
    (code[at] == 0xE8 || code[at] == 0xE9) && l == 5
}

/// The instructions from `from` to `to` moved by `-delta` bytes: every
/// `CALL/JMP rel32` gets its displacement raised by `delta` so that it still
/// lands where it did; the other instructions are copied unchanged. `Err`
/// holds the offset of a branch whose new displacement does not fit.
pub open spec fn relocate32(code: Seq<u8>, from: int, to: int, delta: int) -> Result<Seq<u8>, int>
    decreases to - from,
{
    if from >= to {
        Ok(Seq::empty())
    } else {
        match insn_len32(code, from) {
            Some(l) => if from + l <= to {
                proof {
                    lemma_insn_len32_bounds(code, from);
                }
                let moved = if is_rel32_branch(code, from, l) {
                    let new_rel = le_i32(code, from + 1) + delta;
                    if fits_i32(new_rel) {
                        Ok(seq![code[from]] + field32(new_rel))
                    } else {
                        Err(from)
                    }
                } else {
                    Ok(code.subrange(from, from + l))
                };
                match moved {
                    Ok(m) => match relocate32(code, from + l, to, delta) {
                        Ok(rest) => Ok(m + rest),
                        Err(e) => Err(e),
                    },
                    Err(e) => Err(e),
                }
            } else {
                Err(from)
            },
            None => Err(from),
        }
    }
}

/// `acc` put in front of a relocation result.
pub open spec fn prepend(acc: Seq<u8>, r: Result<Seq<u8>, int>) -> Result<Seq<u8>, int> {
    match r {
        Ok(rest) => Ok(acc + rest),
        Err(e) => Err(e),
    }
}

/// The code of the trampoline at `trampoline_addr` for the function at
/// `target_addr`: its first `prologue_len` bytes, relocated, then a
/// `JMP rel32` back to the instruction after them.
pub open spec fn trampoline32(code: Seq<u8>, prologue_len: int, target_addr: int, trampoline_addr: int) -> Result<Seq<u8>, int> {
    match relocate32(code, 0, prologue_len, target_addr - trampoline_addr) {
        Ok(moved) => Ok(moved + jmp_rel32(trampoline_addr + prologue_len, target_addr + prologue_len)),
        Err(e) => Err(e),
    }
}

/// Build the trampoline for the function at `target_addr`, whose first bytes
/// are `code`, to be placed at `trampoline_addr`.
pub fn build_trampoline(code: &[u8], prologue_len: usize, target_addr: usize, trampoline_addr: usize) -> (r: Result<Vec<u8>, BranchOutOfRange>)
    requires
        prologue_len + 4 <= code@.len(),
        splits32(code@, 0, prologue_len as int),
    ensures
        r matches Ok(t) ==> trampoline32(code@, prologue_len as int, target_addr as int, trampoline_addr as int) == Ok::<Seq<u8>, int>(t@),
        r matches Err(e) ==> {
            &&& trampoline32(code@, prologue_len as int, target_addr as int, trampoline_addr as int) == Err::<Seq<u8>, int>(e.offset as int)
            &&& e.opcode == code@[e.offset as int]
            &&& e.opcode == 0xE8 || e.opcode == 0xE9
            &&& e.branch_target == target_addr + e.offset + 5 + le_i32(code@, e.offset + 1)
            &&& e.trampoline_end == trampoline_addr + e.offset + 5
        },
{
    let ghost d = target_addr - trampoline_addr;
    let delta: i128 = target_addr as i128 - trampoline_addr as i128;
    let mut out: Vec<u8> = Vec::new();
    let mut offset: usize = 0;
    while offset < prologue_len
        invariant
            offset <= prologue_len,
            prologue_len + 4 <= code@.len(),
            delta == d,
            d == target_addr - trampoline_addr,
            splits32(code@, offset as int, prologue_len as int),
            prepend(out@, relocate32(code@, offset as int, prologue_len as int, d)) == relocate32(
                code@,
                0,
                prologue_len as int,
                d,
            ),
        decreases prologue_len - offset,
    {
        let len = match x86_insn_len(code, offset) {
            Some(len) => len,
            None => {
                assert(false);
                0
            },
        };
        let op = code[offset];
        let ghost rest = relocate32(code@, offset + len, prologue_len as int, d);
        if (op == 0xE8 || op == 0xE9) && len == 5 {
            let orig_rel32 = read_le_i32(code, offset + 1);
            let new_rel32: i128 = orig_rel32 as i128 + delta;
            if new_rel32 > 0x7fff_ffff || new_rel32 < -0x8000_0000 {
                return Err(
                    BranchOutOfRange {
                        offset,
                        opcode: op,
                        branch_target: target_addr as i128 + offset as i128 + 5 + orig_rel32 as i128,
                        trampoline_end: trampoline_addr as i128 + offset as i128 + 5,
                    },
                );
            }
            let field = field32_bytes(new_rel32);
            let ghost before = out@;
            out.push(op);
            out.push(field[0]);
            out.push(field[1]);
            out.push(field[2]);
            out.push(field[3]);
            proof {
                assert(out@ =~= before + (seq![op] + field@));
                assert(field@.len() == 4);
                assert(prepend(out@, rest) == prepend(before, prepend(seq![op] + field@, rest))) by {
                    match rest {
                        Ok(r) => {
                            assert(before + ((seq![op] + field@) + r) =~= out@ + r);
                        },
                        Err(e) => {},
                    }
                }
            }
        } else {
            let ghost before = out@;
            let mut i: usize = 0;
            while i < len
                invariant
                    i <= len,
                    offset + len <= prologue_len,
                    prologue_len + 4 <= code@.len(),
                    out@ == before + code@.subrange(offset as int, offset + i),
                decreases len - i,
            {
                out.push(code[offset + i]);
                i = i + 1;
                assert(out@ =~= before + code@.subrange(offset as int, offset + i));
            }
            proof {
                let m = code@.subrange(offset as int, offset + len);
                assert(prepend(out@, rest) == prepend(before, prepend(m, rest))) by {
                    match rest {
                        Ok(r) => {
                            assert(before + (m + r) =~= out@ + r);
                        },
                        Err(e) => {},
                    }
                }
            }
        }
        offset = offset + len;
    }
    let return_addr: i128 = target_addr as i128 + prologue_len as i128;
    let jmp_from: i128 = trampoline_addr as i128 + prologue_len as i128;
    let field = field32_bytes(return_addr - (jmp_from + 5));
    let ghost moved = out@;
    out.push(0xE9);
    out.push(field[0]);
    out.push(field[1]);
    out.push(field[2]);
    out.push(field[3]);
    proof {
        assert(relocate32(code@, offset as int, prologue_len as int, d) == Ok::<Seq<u8>, int>(Seq::empty()));
        assert(moved + Seq::<u8>::empty() =~= moved);
        assert(out@ =~= moved + jmp_rel32(jmp_from as int, return_addr as int));
    }
    Ok(out)
}


/// `n` one-byte `NOP`s.
pub open spec fn nops(n: int) -> Seq<u8> {
    Seq::new(n as nat, |i: int| 0x90u8)
}

/// The patch written over the first `prologue_len` bytes of the function at
/// `addr`: a `JMP rel32` to `replacement_addr`, then `NOP`s.
pub open spec fn hook_patch32(addr: int, replacement_addr: int, prologue_len: int) -> Seq<u8> {
    jmp_rel32(addr, replacement_addr) + nops(prologue_len - JMP_PATCH_SIZE)
}

/// Build the patch that redirects the function at `addr` to
/// `replacement_addr`, padded with `NOP`s to `prologue_len` bytes.
pub fn build_hook_patch(addr: usize, replacement_addr: usize, prologue_len: usize) -> (r: Vec<u8>)
    requires
        JMP_PATCH_SIZE <= prologue_len,
    ensures
        r@ == hook_patch32(addr as int, replacement_addr as int, prologue_len as int),
        r@.len() == prologue_len,
{
    let field = field32_bytes(replacement_addr as i128 - (addr as i128 + 5));
    let mut r: Vec<u8> = Vec::new();
    r.push(0xE9);
    r.push(field[0]);
    r.push(field[1]);
    r.push(field[2]);
    r.push(field[3]);
    let ghost head = r@;
    assert(head =~= jmp_rel32(addr as int, replacement_addr as int));
    let mut i: usize = JMP_PATCH_SIZE;
    while i < prologue_len
        invariant
            JMP_PATCH_SIZE <= i <= prologue_len,
            r@ == head + nops(i - JMP_PATCH_SIZE),
        decreases prologue_len - i,
    {
        r.push(0x90);
        i = i + 1;
        assert(r@ =~= head + nops(i - JMP_PATCH_SIZE));
    }
    r
}

/// The first and one-past-last page boundaries around `len` bytes at `addr`.
pub open spec fn page_span(addr: int, len: int, page_size: int) -> (int, int) {
    (addr - addr % page_size, (addr + len + page_size - 1) - (addr + len + page_size - 1) % page_size)
}

/// The page-aligned start and the size of the region whose protection must
/// change so that `len` bytes at `addr` become writable.
pub fn page_range(addr: usize, len: usize, page_size: usize) -> (r: (usize, usize))
    requires
        page_size > 0,
        addr + len + page_size - 1 <= usize::MAX,
    ensures
        r.0 == page_span(addr as int, len as int, page_size as int).0,
        r.0 + r.1 == page_span(addr as int, len as int, page_size as int).1,
        r.0 % page_size == 0,
        (r.0 + r.1) % (page_size as int) == 0,
        r.0 <= addr,
        addr + len <= r.0 + r.1,
{
    assert(addr % page_size <= addr) by (nonlinear_arith)
        requires
            page_size > 0,
    ;
    let page_start = addr - addr % page_size;
    let top = addr + len + (page_size - 1);
    let page_end = top - top % page_size;
    assert(page_start % page_size == 0) by (nonlinear_arith)
        requires
            page_start == addr - addr % page_size,
            page_size > 0,
    ;
    assert(page_end % page_size == 0) by (nonlinear_arith)
        requires
            page_end == top - top % page_size,
            page_size > 0,
    ;
    assert(page_end >= page_start) by (nonlinear_arith)
        requires
            page_end == top - top % page_size,
            page_start == addr - addr % page_size,
            top >= addr,
            page_size > 0,
    ;
    (page_start, page_end - page_start)
}

/// Failure to bind a function to an address.
#[derive(Clone, Debug)]
pub enum BindError {
    /// The function already has an address.
    AlreadyBound(String),
    /// No address was found for the function.
    NotFound(String),
}

/// Why the patch that hooks a function could not be made.
#[derive(Clone, Debug)]
pub enum HookFailure {
    /// The prologue of the function at `addr` cannot be moved to a
    /// trampoline; `patch_size` is the size of the jump to place there, and
    /// `wide` tells the x86-64 build from the 32-bit one.
    Prologue { addr: usize, patch_size: usize, wide: bool, error: PrologueError },
    /// A branch in the prologue of the function at `addr` cannot reach its
    /// target from the trampoline.
    Relocation { addr: usize, wide: bool, error: BranchOutOfRange },
    /// The operating system refused a memory operation; the message says so.
    System(String),
}

/// Failure to hook a function.
#[derive(Clone, Debug)]
pub enum HookError {
    /// The function has no address yet.
    Unbound(String),
    /// The function is hooked already.
    AlreadyHooked(String),
    /// The hook could not be installed.
    Hook(String, HookFailure),
}

/// Failure to remove a hook.
#[derive(Clone, Debug)]
pub enum UnhookError {
    /// The function is not hooked.
    NotHooked(String),
    /// The original bytes could not be written back.
    Hook(String, String),
}

/// What is remembered of an installed hook.
pub enum HookRecord {
    /// An inline hook: the trampoline's address and the bytes the patch replaced.
    Inline { trampoline_addr: usize, saved_bytes: Seq<u8> },
    /// A slot hook: the address the slot held before.
    Slot { original_addr: usize },
}

/// The state of a bound function.
pub struct BoundFnModel {
    pub name: Seq<char>,
    /// The function's address (direct) or its slot's address (indirect); 0 while unbound.
    pub addr: usize,
    pub symbol: Option<Seq<char>>,
    /// Hooked by patching code (`true`) or by rewriting a slot (`false`).
    pub direct: bool,
    pub hook: Option<HookRecord>,
}

/// The model after `bind(addr)`: the address is taken only while unbound.
pub open spec fn after_bind(m: BoundFnModel, addr: usize) -> BoundFnModel {
    if m.addr == 0 {
        BoundFnModel { addr, ..m }
    } else {
        m
    }
}

/// The model once a hook is in place.
pub open spec fn after_hook(m: BoundFnModel, record: HookRecord) -> BoundFnModel {
    BoundFnModel { hook: Some(record), ..m }
}

/// The model once the hook is removed.
pub open spec fn after_unhook(m: BoundFnModel) -> BoundFnModel {
    BoundFnModel { hook: None, ..m }
}

struct InlineHook {
    trampoline_addr: usize,
    saved_bytes: Vec<u8>,
    target_addr: usize,
}

enum FnHook {
    Direct(Option<InlineHook>),
    Indirect(Option<usize>),
}

/// A function of the game, bound to an address and possibly hooked.
/// `F` is the function's type.
pub struct BoundFn<F> {
    pub name: String,
    addr: usize,
    hook: FnHook,
    pub symbol: Option<String>,
    fn_type: PhantomData<F>,
}

/// Where the original behaviour of a function can be called.
#[derive(Clone, Copy, Debug, PartialEq, Eq, Structural)]
pub enum OriginalFn {
    /// At this code address.
    Code(usize),
    /// At the code address stored in this slot.
    StoredIn(usize),
}

/// The data to write to install a hook.
#[derive(Clone, Debug)]
pub enum HookPatch {
    /// Write `trampoline` at `trampoline_addr`, then `patch` at `target_addr`;
    /// `saved_bytes` are the bytes `patch` replaces.
    Inline { target_addr: usize, trampoline_addr: usize, trampoline: Vec<u8>, patch: Vec<u8>, saved_bytes: Vec<u8> },
    /// Write `replacement_addr` into the slot at `slot_addr`, which held `original_addr`.
    Slot { slot_addr: usize, replacement_addr: usize, original_addr: usize },
}

/// What the application found at the hook site.
#[derive(Clone, Debug)]
pub enum HookSite {
    /// The function's first bytes and the address of a fresh trampoline page.
    Code { bytes: Vec<u8>, trampoline_addr: usize },
    /// The address the slot holds now.
    Slot { current: usize },
}

/// The data to write to remove a hook.
#[derive(Clone, Debug)]
pub enum Restore {
    /// Write `bytes` back at `target_addr`.
    Inline { target_addr: usize, bytes: Vec<u8> },
    /// Write `value` back into the slot at `slot_addr`.
    Slot { slot_addr: usize, value: usize },
}

/// The record kept for an installed patch.
pub open spec fn record_of(p: HookPatch) -> HookRecord {
    match p {
        HookPatch::Inline { trampoline_addr, saved_bytes, .. } => HookRecord::Inline { trampoline_addr, saved_bytes: saved_bytes@ },
        HookPatch::Slot { original_addr, .. } => HookRecord::Slot { original_addr },
    }
}

/// Whether `r` undoes the hook recorded in `m`: it writes the saved bytes at
/// the function's address, or the saved address into its slot.
pub open spec fn restores(m: BoundFnModel, r: Restore) -> bool {
    match (m.hook, r) {
        (Some(HookRecord::Inline { saved_bytes, .. }), Restore::Inline { target_addr, bytes }) => target_addr == m.addr && bytes@ == saved_bytes,
        (Some(HookRecord::Slot { original_addr }), Restore::Slot { slot_addr, value }) => slot_addr == m.addr && value == original_addr,
        _ => false,
    }
}

/// The inline patch for the function at `addr` whose first bytes are `code`,
/// with its trampoline at `trampoline_addr`: `Ok((prologue_len, trampoline))`,
/// or the reason it cannot be made.
pub open spec fn inline_plan(code: Seq<u8>, addr: usize, trampoline_addr: usize) -> Result<(usize, Seq<u8>), HookFailureKind> {
    match prologue_scan32(code, 0) {
        Ok(n) => match trampoline32(code, n as int, addr as int, trampoline_addr as int) {
            Ok(t) => Ok((n, t)),
            Err(off) => Err(HookFailureKind::Relocation(off)),
        },
        Err(e) => Err(HookFailureKind::Prologue(e)),
    }
}

/// The kind of a hook failure, as the contracts speak of it.
pub enum HookFailureKind {
    Prologue(PrologueError),
    Relocation(int),
}

impl<F> View for BoundFn<F> {
    type V = BoundFnModel;

    closed spec fn view(&self) -> BoundFnModel {
        BoundFnModel {
            name: self.name@,
            addr: self.addr,
            symbol: opt_str_view(self.symbol),
            direct: self.hook is Direct,
            hook: match self.hook {
                FnHook::Direct(Some(h)) => Some(HookRecord::Inline { trampoline_addr: h.trampoline_addr, saved_bytes: h.saved_bytes@ }),
                FnHook::Direct(None) => None,
                FnHook::Indirect(Some(a)) => Some(HookRecord::Slot { original_addr: a }),
                FnHook::Indirect(None) => None,
            },
        }
    }
}

impl<F> BoundFn<F> {
    /// Well-formedness: only a bound function is hooked, and an inline hook
    /// covers the function's own address.
    pub closed spec fn wf(&self) -> bool {
        match self.hook {
            FnHook::Direct(Some(h)) => self.addr != 0 && h.target_addr == self.addr,
            FnHook::Indirect(Some(_)) => self.addr != 0,
            _ => true,
        }
    }

    /// A function hooked by patching its code; `symbol` is the name to bind
    /// it by when that differs from `name`.
    pub fn direct(name: &str, symbol: Option<&str>) -> (b: BoundFn<F>)
        ensures
            b.wf(),
            b@ == (BoundFnModel {
                name: name@,
                addr: 0,
                symbol: match symbol {
                    Some(s) => Some(s@),
                    None => None,
                },
                direct: true,
                hook: None,
            }),
    {
        BoundFn {
            name: name.to_owned(),
            addr: 0,
            hook: FnHook::Direct(None),
            symbol: match symbol {
                Some(s) => Some(s.to_owned()),
                None => None,
            },
            fn_type: PhantomData,
        }
    }

    /// A function hooked by rewriting the slot (GOT entry) that holds its address.
    pub fn indirect(name: &str) -> (b: BoundFn<F>)
        ensures
            b.wf(),
            b@ == (BoundFnModel { name: name@, addr: 0, symbol: None, direct: false, hook: None }),
    {
        BoundFn { name: name.to_owned(), addr: 0, hook: FnHook::Indirect(None), symbol: None, fn_type: PhantomData }
    }

    /// The bound address; 0 while unbound.
    pub fn get_addr(&self) -> (a: usize)
        ensures
            a == self@.addr,
    {
        self.addr
    }

    /// Whether the function is hooked by patching its code (`true`) or by
    /// rewriting the slot that holds its address (`false`).
    pub fn is_direct(&self) -> (b: bool)
        ensures
            b == self@.direct,
    {
        match &self.hook {
            FnHook::Direct(_) => true,
            FnHook::Indirect(_) => false,
        }
    }

    /// Whether a hook is installed.
    pub fn is_hooked(&self) -> (b: bool)
        ensures
            b == self@.hook is Some,
    {
        match &self.hook {
            FnHook::Direct(h) => h.is_some(),
            FnHook::Indirect(h) => h.is_some(),
        }
    }

    /// Bind the function to `addr`; a function is bound at most once.
    pub fn bind(&mut self, addr: usize) -> (r: Result<(), BindError>)
        requires
            old(self).wf(),
        ensures
            final(self).wf(),
            bind_outcome(old(self)@, final(self)@, Some(addr), r),
    {
        if self.addr == 0 {
            self.addr = addr;
            Ok(())
        } else {
            Err(BindError::AlreadyBound(self.name.clone()))
        }
    }

    /// Bind to the address `dlsym` found, if it found one.
    pub fn bind_dlsym(&mut self, dlsym: Option<usize>) -> (r: Result<(), BindError>)
        requires
            old(self).wf(),
        ensures
            final(self).wf(),
            bind_outcome(old(self)@, final(self)@, dlsym, r),
    {
        match dlsym {
            Some(addr) => self.bind(addr),
            None => Err(self.not_found()),
        }
    }

    /// Bind by the ELF symbol table of the executable (local symbols included).
    pub fn bind_elf_symbol(&mut self, symbols: &ProcessSymbols, sym_name: &str) -> (r: Result<(), BindError>)
        requires
            old(self).wf(),
            symbols.wf(),
        ensures
            final(self).wf(),
            bind_outcome(old(self)@, final(self)@, symbols.elf.spec_get(sym_name@), r),
    {
        match elf_symbol_lookup(symbols, sym_name) {
            Some(addr) => self.bind(addr),
            None => Err(self.not_found()),
        }
    }

    /// Bind to the GOT slot of an imported function, falling back on `dlsym`
    /// and then on the ELF symbol table.
    pub fn bind_got_entry(&mut self, symbols: &ProcessSymbols, sym_name: &str, dlsym: Option<usize>) -> (r: Result<(), BindError>)
        requires
            old(self).wf(),
            symbols.wf(),
        ensures
            final(self).wf(),
            bind_outcome(old(self)@, final(self)@, first_found(symbols.got.spec_get(sym_name@), dlsym, symbols.elf.spec_get(sym_name@)), r),
    {
        if let Some(addr) = got_entry_lookup(symbols, sym_name) {
            return self.bind(addr);
        }
        if let Some(addr) = dlsym {
            return self.bind(addr);
        }
        if let Some(addr) = elf_symbol_lookup(symbols, sym_name) {
            return self.bind(addr);
        }
        Err(self.not_found())
    }

    /// Bind to the address `dlsym` found, falling back on the ELF symbol table.
    pub fn bind_symbol(&mut self, symbols: &ProcessSymbols, sym_name: &str, dlsym: Option<usize>) -> (r: Result<(), BindError>)
        requires
            old(self).wf(),
            symbols.wf(),
        ensures
            final(self).wf(),
            bind_outcome(old(self)@, final(self)@, first_found(dlsym, symbols.elf.spec_get(sym_name@), None), r),
    {
        if let Some(addr) = dlsym {
            return self.bind(addr);
        }
        if let Some(addr) = elf_symbol_lookup(symbols, sym_name) {
            return self.bind(addr);
        }
        Err(self.not_found())
    }

    /// Check that the function can be hooked and give the address to read the
    /// hook site from.
    pub fn hook_target(&self) -> (r: Result<usize, HookError>)
        requires
            self.wf(),
        ensures
            refusal_matches(self@, r),
            can_hook(self@) ==> r == Ok::<usize, HookError>(self@.addr),
    {
        if self.addr == 0 {
            return Err(HookError::Unbound(self.name.clone()));
        }
        if self.is_hooked() {
            return Err(self.already_hooked());
        }
        Ok(self.addr)
    }

    /// Compute the writes that redirect the function to `replacement_addr`.
    /// For a direct function `site` holds its first bytes (at least
    /// `MAX_PROLOGUE_COPY + 4` of them) and a trampoline address; for an
    /// indirect one, what its slot holds. Nothing changes until
    /// `hook_installed` records the hook.
    pub fn hook(&self, replacement_addr: usize, site: &HookSite) -> (r: Result<HookPatch, HookError>)
        requires
            self.wf(),
            site_fits(self@, *site),
        ensures
            refusal_matches(self@, r),
            can_hook(self@) ==> hook_outcome(self@, replacement_addr, *site, r),
    {
        let addr = self.hook_target()?;
        match site {
            HookSite::Code { bytes, trampoline_addr } => {
                let prologue_len = match prologue_copy_len(bytes.as_slice()) {
                    Ok(n) => n,
                    Err(e) => return Err(HookError::Hook(self.name.clone(), HookFailure::Prologue { addr, patch_size: JMP_PATCH_SIZE, wide: false, error: e })),
                };
                let trampoline = match build_trampoline(bytes.as_slice(), prologue_len, addr, *trampoline_addr) {
                    Ok(t) => t,
                    Err(e) => return Err(HookError::Hook(self.name.clone(), HookFailure::Relocation { addr, wide: false, error: e })),
                };
                let patch = build_hook_patch(addr, replacement_addr, prologue_len);
                let mut saved_bytes: Vec<u8> = Vec::new();
                let mut i: usize = 0;
                while i < prologue_len
                    invariant
                        i <= prologue_len,
                        prologue_len < bytes@.len(),
                        saved_bytes@ == bytes@.take(i as int),
                    decreases prologue_len - i,
                {
                    saved_bytes.push(bytes[i]);
                    i = i + 1;
                    assert(saved_bytes@ =~= bytes@.take(i as int));
                }
                Ok(HookPatch::Inline { target_addr: addr, trampoline_addr: *trampoline_addr, trampoline, patch, saved_bytes })
            },
            HookSite::Slot { current } => Ok(HookPatch::Slot { slot_addr: addr, replacement_addr, original_addr: *current }),
        }
    }

    /// Record the hook whose patch the application has written.
    pub fn hook_installed(&mut self, patch: HookPatch)
        requires
            old(self).wf(),
            old(self)@.addr != 0,
            old(self)@.hook is None,
            match patch {
                HookPatch::Inline { target_addr, .. } => old(self)@.direct && target_addr == old(self)@.addr,
                HookPatch::Slot { slot_addr, .. } => !old(self)@.direct && slot_addr == old(self)@.addr,
            },
        ensures
            final(self).wf(),
            final(self)@ == after_hook(old(self)@, record_of(patch)),
    {
        match patch {
            HookPatch::Inline { target_addr, trampoline_addr, saved_bytes, .. } => {
                self.hook = FnHook::Direct(Some(InlineHook { trampoline_addr, saved_bytes, target_addr }));
            },
            HookPatch::Slot { original_addr, .. } => {
                self.hook = FnHook::Indirect(Some(original_addr));
            },
        }
    }

    /// Remove the hook, giving the writes that undo its patch.
    pub fn unhook(&mut self) -> (r: Result<Restore, UnhookError>)
        requires
            old(self).wf(),
        ensures
            final(self).wf(),
            unhook_outcome(old(self)@, final(self)@, r),
    {
        let addr = self.addr;
        match &mut self.hook {
            FnHook::Direct(h) => match h.take() {
                Some(hook) => Ok(Restore::Inline { target_addr: hook.target_addr, bytes: hook.saved_bytes }),
                None => Err(UnhookError::NotHooked(self.name.clone())),
            },
            FnHook::Indirect(h) => match h.take() {
                Some(original) => Ok(Restore::Slot { slot_addr: addr, value: original }),
                None => Err(UnhookError::NotHooked(self.name.clone())),
            },
        }
    }

    /// Where the original function can be called: the trampoline while an
    /// inline hook is in place, the address saved from the slot while a slot
    /// hook is, otherwise the bound function (or its slot); `None` while unbound.
    pub fn original_fn_addr(&self) -> (r: Option<OriginalFn>)
        requires
            self.wf(),
        ensures
            r == original_fn(self@),
    {
        match &self.hook {
            FnHook::Direct(Some(h)) => Some(OriginalFn::Code(h.trampoline_addr)),
            FnHook::Indirect(Some(a)) => Some(OriginalFn::Code(*a)),
            FnHook::Direct(None) => if self.addr != 0 { Some(OriginalFn::Code(self.addr)) } else { None },
            FnHook::Indirect(None) => if self.addr != 0 { Some(OriginalFn::StoredIn(self.addr)) } else { None },
        }
    }

    /// Like `original_fn_addr`, for a function that must be bound by now.
    pub fn original_fn_addr_or_panic(&self) -> (r: OriginalFn)
        requires
            self.wf(),
            self@.addr != 0,
        ensures
            Some(r) == original_fn(self@),
    {
        match self.original_fn_addr() {
            Some(f) => f,
            None => {
                assert(false);
                OriginalFn::Code(0)
            },
        }
    }

    /// The error for a function whose address was not found.
    pub fn not_found(&self) -> (e: BindError)
        ensures
            match e {
                BindError::NotFound(n) => n@ == self@.name,
                _ => false,
            },
    {
        BindError::NotFound(self.name.clone())
    }

    /// The error for hooking a function twice.
    pub fn already_hooked(&self) -> (e: HookError)
        ensures
            match e {
                HookError::AlreadyHooked(n) => n@ == self@.name,
                _ => false,
            },
    {
        HookError::AlreadyHooked(self.name.clone())
    }

    /// The error for removing a hook that is not there.
    pub fn not_hooked(&self) -> (e: UnhookError)
        ensures
            match e {
                UnhookError::NotHooked(n) => n@ == self@.name,
                _ => false,
            },
    {
        UnhookError::NotHooked(self.name.clone())
    }
}

/// Where the original of a function with model `m` can be called.
pub open spec fn original_fn(m: BoundFnModel) -> Option<OriginalFn> {
    match m.hook {
        Some(HookRecord::Inline { trampoline_addr, .. }) => Some(OriginalFn::Code(trampoline_addr)),
        Some(HookRecord::Slot { original_addr }) => Some(OriginalFn::Code(original_addr)),
        None => if m.addr == 0 {
            None
        } else if m.direct {
            Some(OriginalFn::Code(m.addr))
        } else {
            Some(OriginalFn::StoredIn(m.addr))
        },
    }
}

/// The first address found, trying the sources in order.
pub open spec fn first_found(a: Option<usize>, b: Option<usize>, c: Option<usize>) -> Option<usize> {
    if a is Some {
        a
    } else if b is Some {
        b
    } else {
        c
    }
}


/// The outcome of a bind attempt with `found` as the address looked up:
/// the address is taken while unbound, an already bound function reports
/// `AlreadyBound`, and nothing found reports `NotFound`, leaving it unchanged.
pub open spec fn bind_outcome(old: BoundFnModel, new: BoundFnModel, found: Option<usize>, r: Result<(), BindError>) -> bool {
    match found {
        Some(a) => new == after_bind(old, a) && if old.addr == 0 {
            r is Ok
        } else {
            match r {
                Err(BindError::AlreadyBound(n)) => n@ == old.name,
                _ => false,
            }
        },
        None => new == old && match r {
            Err(BindError::NotFound(n)) => n@ == old.name,
            _ => false,
        },
    }
}

/// Whether a function in state `m` can be hooked: bound and not hooked.
pub open spec fn can_hook(m: BoundFnModel) -> bool {
    m.addr != 0 && m.hook is None
}

/// The refusals of a hook attempt: `Unbound` while unbound, `AlreadyHooked`
/// while hooked.
pub open spec fn refusal_matches<T>(m: BoundFnModel, r: Result<T, HookError>) -> bool {
    if m.addr == 0 {
        match r {
            Err(HookError::Unbound(n)) => n@ == m.name,
            _ => false,
        }
    } else if m.hook is Some {
        match r {
            Err(HookError::AlreadyHooked(n)) => n@ == m.name,
            _ => false,
        }
    } else {
        true
    }
}

/// Whether `site` is what hooking a function in state `m` needs.
pub open spec fn site_fits(m: BoundFnModel, site: HookSite) -> bool {
    match site {
        HookSite::Code { bytes, .. } => m.direct && bytes@.len() >= MAX_PROLOGUE_COPY + 4,
        HookSite::Slot { .. } => !m.direct,
    }
}

/// The outcome of hooking a hookable function: the patch that jumps to the
/// replacement, with its trampoline and the bytes it replaces, or the reason
/// it cannot be made; for a slot, the replacement address to store.
pub open spec fn hook_outcome(m: BoundFnModel, replacement_addr: usize, site: HookSite, r: Result<HookPatch, HookError>) -> bool {
    match site {
        HookSite::Code { bytes, trampoline_addr } => match inline_plan(bytes@, m.addr, trampoline_addr) {
            Ok((n, t)) => match r {
                Ok(HookPatch::Inline { target_addr, trampoline_addr: ta, trampoline, patch, saved_bytes }) => {
                    &&& target_addr == m.addr
                    &&& ta == trampoline_addr
                    &&& trampoline@ == t
                    &&& patch@ == hook_patch32(m.addr as int, replacement_addr as int, n as int)
                    &&& saved_bytes@ == bytes@.take(n as int)
                },
                _ => false,
            },
            Err(HookFailureKind::Prologue(pe)) => match r {
                Err(HookError::Hook(nm, HookFailure::Prologue { addr, patch_size, wide, error })) => nm@ == m.name && error == pe && addr == m.addr && patch_size == JMP_PATCH_SIZE && !wide,
                _ => false,
            },
            Err(HookFailureKind::Relocation(off)) => match r {
                Err(HookError::Hook(nm, HookFailure::Relocation { addr, wide, error })) => nm@ == m.name && error.offset == off && addr == m.addr && !wide,
                _ => false,
            },
        },
        HookSite::Slot { current } => match r {
            Ok(HookPatch::Slot { slot_addr, replacement_addr: ra, original_addr }) => slot_addr == m.addr
                && ra == replacement_addr && original_addr == current,
            _ => false,
        },
    }
}

/// The outcome of removing a hook: `NotHooked` when there is none, otherwise
/// the hook is forgotten and the writes that undo it are given.
pub open spec fn unhook_outcome(old: BoundFnModel, new: BoundFnModel, r: Result<Restore, UnhookError>) -> bool {
    if old.hook is None {
        new == old && match r {
            Err(UnhookError::NotHooked(n)) => n@ == old.name,
            _ => false,
        }
    } else {
        new == after_unhook(old) && match r {
            Ok(rs) => restores(old, rs),
            _ => false,
        }
    }
}


/// Whether `i` is the start of one of the instructions that make up the
/// bytes from `from` to `to`.
pub open spec fn insn_start32(code: Seq<u8>, from: int, to: int, i: int) -> bool
    decreases to - from,
{
    if from >= to {
        false
    } else {
        match insn_len32(code, from) {
            Some(l) => if from + l <= to {
                proof {
                    lemma_insn_len32_bounds(code, from);
                }
                i == from || insn_start32(code, from + l, to, i)
            } else {
                false
            },
            None => false,
        }
    }
}

/// A function is bound at most once: after a successful bind to a non-zero
/// address, binding again changes nothing.
pub proof fn law_bind_once(m: BoundFnModel, a: usize, b: usize)
    requires
        m.addr == 0,
        a != 0,
    ensures
        after_bind(m, a).addr == a,
        after_bind(after_bind(m, a), b) == after_bind(m, a),
{
}

/// A call that changes a bound function, by the effect its contract gives:
/// a bind (`bind` and the `bind_*` lookups) with the address found, if any;
/// an attempt to hook with the record `hook_installed` would keep; `unhook`.
pub enum BoundFnCall {
    Bind(Option<usize>),
    Hook(HookRecord),
    Unhook,
}

/// The model after one call: a bind as `bind_outcome` gives it, a hook only
/// when `can_hook` lets it be made, an unhook only when a hook is there.
pub open spec fn after_call(m: BoundFnModel, c: BoundFnCall) -> BoundFnModel {
    match c {
        BoundFnCall::Bind(found) => match found {
            Some(a) => after_bind(m, a),
            None => m,
        },
        BoundFnCall::Hook(record) => if can_hook(m) {
            after_hook(m, record)
        } else {
            m
        },
        BoundFnCall::Unhook => if m.hook is Some {
            after_unhook(m)
        } else {
            m
        },
    }
}

/// The model after the calls `cs`, in order.
pub open spec fn after_calls(m: BoundFnModel, cs: Seq<BoundFnCall>) -> BoundFnModel
    decreases cs.len(),
{
    if cs.len() == 0 {
        m
    } else {
        after_call(after_calls(m, cs.drop_last()), cs.last())
    }
}

/// The first non-zero address that a bind among `cs` found; 0 when none did.
pub open spec fn first_bound(cs: Seq<BoundFnCall>) -> usize
    decreases cs.len(),
{
    if cs.len() == 0 {
        0
    } else {
        let before = first_bound(cs.drop_last());
        if before != 0 {
            before
        } else {
            match cs.last() {
                BoundFnCall::Bind(Some(a)) => a,
                _ => 0,
            }
        }
    }
}

/// Whatever calls a function goes through from its construction, its address
/// (what `get_addr` returns) is the first non-zero address a bind gave it, or
/// 0 if none did; its name and kind never change.
pub proof fn law_addr_is_first_bind(m: BoundFnModel, cs: Seq<BoundFnCall>)
    requires
        m.addr == 0,
    ensures
        after_calls(m, cs).addr == first_bound(cs),
        after_calls(m, cs).name == m.name,
        after_calls(m, cs).direct == m.direct,
    decreases cs.len(),
{
    if cs.len() > 0 {
        law_addr_is_first_bind(m, cs.drop_last());
    }
}

/// Removing a hook undoes it: the function is left as it was before, the
/// restore writes back, at the patched address, exactly the bytes the patch
/// covered, and calls to the original go to the function itself again.
pub proof fn law_unhook_undoes_inline_hook(
    m: BoundFnModel,
    bytes: Seq<u8>,
    trampoline_addr: usize,
    replacement_addr: usize,
    rs: Restore,
)
    requires
        can_hook(m),
        m.direct,
        bytes.len() >= MAX_PROLOGUE_COPY + 4,
        inline_plan(bytes, m.addr, trampoline_addr) is Ok,
        restores(
            after_hook(
                m,
                HookRecord::Inline {
                    trampoline_addr,
                    saved_bytes: bytes.take(inline_plan(bytes, m.addr, trampoline_addr)->Ok_0.0 as int),
                },
            ),
            rs,
        ),
    ensures
        ({
            let n = inline_plan(bytes, m.addr, trampoline_addr)->Ok_0.0;
            let rec = HookRecord::Inline { trampoline_addr, saved_bytes: bytes.take(n as int) };
            &&& after_unhook(after_hook(m, rec)) == m
            &&& original_fn(after_hook(m, rec)) == Some(OriginalFn::Code(trampoline_addr))
            &&& original_fn(after_unhook(after_hook(m, rec))) == Some(OriginalFn::Code(m.addr))
            &&& rs matches Restore::Inline { target_addr, bytes: back } && target_addr == m.addr
                && back@ == bytes.take(n as int) && back@.len() == hook_patch32(
                m.addr as int,
                replacement_addr as int,
                n as int,
            ).len()
        }),
{
    let n = inline_plan(bytes, m.addr, trampoline_addr)->Ok_0.0;
    lemma_scan32_splits(bytes, 0);
    assert(hook_patch32(m.addr as int, replacement_addr as int, n as int).len() == n);
    assert(after_unhook(after_hook(m, HookRecord::Inline { trampoline_addr, saved_bytes: bytes.take(n as int) })) =~= m);
}

/// Removing a slot hook puts back the address the slot held.
pub proof fn law_unhook_undoes_slot_hook(m: BoundFnModel, current: usize, rs: Restore)
    requires
        can_hook(m),
        !m.direct,
        restores(after_hook(m, HookRecord::Slot { original_addr: current }), rs),
    ensures
        after_unhook(after_hook(m, HookRecord::Slot { original_addr: current })) == m,
        original_fn(after_hook(m, HookRecord::Slot { original_addr: current })) == Some(OriginalFn::Code(current)),
        rs matches Restore::Slot { slot_addr, value } && slot_addr == m.addr && value == current,
{
}

/// The hook patch is a jump to the replacement (its displacement taken modulo
/// 2^32, as the 32-bit target computes it) followed by `NOP`s.
pub proof fn law_hook_patch_jumps(addr: int, replacement_addr: int, prologue_len: int)
    requires
        JMP_PATCH_SIZE <= prologue_len,
    ensures
        hook_patch32(addr, replacement_addr, prologue_len).len() == prologue_len,
        hook_patch32(addr, replacement_addr, prologue_len)[0] == 0xE9,
        (addr + 5 + le_u32(hook_patch32(addr, replacement_addr, prologue_len), 1)) % 0x1_0000_0000
            == replacement_addr % 0x1_0000_0000,
        forall|i: int| JMP_PATCH_SIZE <= i < prologue_len ==> hook_patch32(addr, replacement_addr, prologue_len)[i] == 0x90,
{
    let p = hook_patch32(addr, replacement_addr, prologue_len);
    let f = field32(replacement_addr - (addr + 5));
    lemma_field32_roundtrip(replacement_addr - (addr + 5));
    assert(le_u32(p, 1) == le_u32(f, 0));
    assert((addr + 5 + (replacement_addr - (addr + 5)) % 0x1_0000_0000) % 0x1_0000_0000 == replacement_addr % 0x1_0000_0000) by (nonlinear_arith);
}

proof fn lemma_relocate32_shape(code: Seq<u8>, from: int, to: int, delta: int)
    requires
        0 <= from <= to <= code.len(),
        relocate32(code, from, to, delta) is Ok,
    ensures
        relocate32(code, from, to, delta)->Ok_0.len() == to - from,
        forall|i: int| #[trigger] insn_start32(code, from, to, i) ==> {
            let r = relocate32(code, from, to, delta)->Ok_0;
            let l = insn_len32(code, i)->Some_0 as int;
            &&& insn_len32(code, i) is Some
            &&& from <= i && i + l <= to
            &&& if is_rel32_branch(code, i, l as nat) {
                r[i - from] == code[i] && le_i32(r, i - from + 1) == le_i32(code, i + 1) + delta
            } else {
                r.subrange(i - from, i - from + l) == code.subrange(i, i + l)
            }
        },
    decreases to - from,
{
    if from < to {
        let l = insn_len32(code, from)->Some_0;
        lemma_insn_len32_bounds(code, from);
        let r = relocate32(code, from, to, delta)->Ok_0;
        let rest = relocate32(code, from + l, to, delta)->Ok_0;
        lemma_relocate32_shape(code, from + l, to, delta);
        let m = if is_rel32_branch(code, from, l) {
            seq![code[from]] + field32(le_i32(code, from + 1) + delta)
        } else {
            code.subrange(from, from + l)
        };
        assert(r == m + rest);
        if is_rel32_branch(code, from, l) {
            lemma_field32_roundtrip(le_i32(code, from + 1) + delta);
            assert(le_i32(r, 1) == le_i32(m, 1));
            assert(le_i32(m, 1) == le_i32(field32(le_i32(code, from + 1) + delta), 0));
        }
        assert forall|i: int| #[trigger] insn_start32(code, from, to, i) implies {
            let l2 = insn_len32(code, i)->Some_0 as int;
            &&& insn_len32(code, i) is Some
            &&& from <= i && i + l2 <= to
            &&& if is_rel32_branch(code, i, l2 as nat) {
                r[i - from] == code[i] && le_i32(r, i - from + 1) == le_i32(code, i + 1) + delta
            } else {
                r.subrange(i - from, i - from + l2) == code.subrange(i, i + l2)
            }
        } by {
            if i == from {
                if !is_rel32_branch(code, i, l) {
                    assert(r.subrange(0, l as int) =~= m);
                }
            } else {
                assert(insn_start32(code, from + l, to, i));
                let l2 = insn_len32(code, i)->Some_0 as int;
                let k = i - from;
                if is_rel32_branch(code, i, l2 as nat) {
                    assert(r[k] == rest[k - l]);
                    assert(le_i32(r, k + 1) == le_i32(rest, k - l + 1));
                } else {
                    assert(r.subrange(k, k + l2) =~= rest.subrange(k - l, k - l + l2));
                }
            }
        }
    }
}

/// A trampoline does what the moved prologue did: it is the prologue's bytes
/// with each `CALL/JMP rel32` still landing on its original target and every
/// other instruction unchanged, then a jump back to the first instruction
/// after the prologue (displacement modulo 2^32, as the 32-bit target
/// computes it).
pub proof fn law_trampoline_preserves_prologue(code: Seq<u8>, n: int, target_addr: int, trampoline_addr: int)
    requires
        0 <= n <= code.len(),
        trampoline32(code, n, target_addr, trampoline_addr) is Ok,
    ensures
        ({
            let t = trampoline32(code, n, target_addr, trampoline_addr)->Ok_0;
            &&& t.len() == n + 5
            &&& t[n] == 0xE9
            &&& (trampoline_addr + n + 5 + le_u32(t, n + 1)) % 0x1_0000_0000 == (target_addr + n) % 0x1_0000_0000
            &&& forall|i: int| #[trigger] insn_start32(code, 0, n, i) ==> {
                let l = insn_len32(code, i)->Some_0 as int;
                if is_rel32_branch(code, i, l as nat) {
                    t[i] == code[i] && trampoline_addr + i + 5 + le_i32(t, i + 1) == target_addr + i + 5 + le_i32(code, i + 1)
                } else {
                    t.subrange(i, i + l) == code.subrange(i, i + l)
                }
            }
        }),
{
    let d = target_addr - trampoline_addr;
    lemma_relocate32_shape(code, 0, n, d);
    let moved = relocate32(code, 0, n, d)->Ok_0;
    let j = jmp_rel32(trampoline_addr + n, target_addr + n);
    let t = moved + j;
    let v = (target_addr + n) - (trampoline_addr + n + 5);
    lemma_field32_roundtrip(v);
    assert(le_u32(t, n + 1) == le_u32(field32(v), 0));
    assert((trampoline_addr + n + 5 + v % 0x1_0000_0000) % 0x1_0000_0000 == (target_addr + n) % 0x1_0000_0000) by (nonlinear_arith)
        requires
            v == (target_addr + n) - (trampoline_addr + n + 5),
    ;
    assert forall|i: int| #[trigger] insn_start32(code, 0, n, i) implies {
        let l = insn_len32(code, i)->Some_0 as int;
        if is_rel32_branch(code, i, l as nat) {
            t[i] == code[i] && trampoline_addr + i + 5 + le_i32(t, i + 1) == target_addr + i + 5 + le_i32(code, i + 1)
        } else {
            t.subrange(i, i + l) == code.subrange(i, i + l)
        }
    } by {
        let l = insn_len32(code, i)->Some_0 as int;
        if is_rel32_branch(code, i, l as nat) {
            assert(le_i32(t, i + 1) == le_i32(moved, i + 1));
        } else {
            assert(t.subrange(i, i + l) =~= moved.subrange(i, i + l));
        }
    }
}


/// Where a static value of the game is found.
pub enum ValueSource {
    /// At the address of a symbol.
    Symbol(String),
    /// At the address stored `offset` bytes into a bound function's code.
    Relative { offset: usize },
}

/// The state of a static value: how it is found and the address found.
pub struct ValueModel {
    pub name: Seq<char>,
    /// The symbol, or `None` for a value found relative to a function.
    pub symbol: Option<Seq<char>>,
    pub offset: usize,
    pub addr: Option<usize>,
}

/// What the application must do to learn the address of a value.
#[derive(Clone, Copy, Debug, PartialEq, Eq, Structural)]
pub enum ValueLookup {
    /// The address is known.
    Known(usize),
    /// The address is the word stored at this address.
    ReadWordAt(usize),
    /// The symbol was found nowhere.
    Unresolved,
}

/// A static value of the game of type `T`, found by a symbol or relative to
/// a function of type `F`. Its address is resolved once.
pub struct Value<T, F> {
    pub name: String,
    source: ValueSource,
    addr: Option<usize>,
    value_type: PhantomData<T>,
    fn_type: PhantomData<F>,
}

impl<T, F> View for Value<T, F> {
    type V = ValueModel;

    closed spec fn view(&self) -> ValueModel {
        ValueModel {
            name: self.name@,
            symbol: match self.source {
                ValueSource::Symbol(s) => Some(s@),
                ValueSource::Relative { .. } => None,
            },
            offset: match self.source {
                ValueSource::Symbol(_) => 0,
                ValueSource::Relative { offset } => offset,
            },
            addr: self.addr,
        }
    }
}

/// The lookup for a value in state `m`, given what `dlsym` and the
/// executable's symbol table found for its symbol and the address of the
/// function it is relative to.
pub open spec fn value_lookup(m: ValueModel, dlsym: Option<usize>, table: Option<usize>, relative_base: usize) -> ValueLookup {
    match m.addr {
        Some(a) => ValueLookup::Known(a),
        None => match m.symbol {
            Some(_) => match first_found(dlsym, table, None) {
                Some(a) => ValueLookup::Known(a),
                None => ValueLookup::Unresolved,
            },
            None => ValueLookup::ReadWordAt((relative_base + m.offset) as usize),
        },
    }
}

/// A value, once its address is found, keeps it: every later lookup gives
/// that address, whatever `dlsym`, the symbol table or the function it is
/// relative to would give now.
pub proof fn law_value_resolved_once(m: ValueModel, addr: usize, dlsym: Option<usize>, table: Option<usize>, relative_base: usize)
    requires
        m.addr is None,
    ensures
        value_lookup(ValueModel { addr: Some(addr), ..m }, dlsym, table, relative_base) == ValueLookup::Known(addr),
{
}

impl<T, F> Value<T, F> {
    /// A value at the address of `symbol`.
    pub fn from_symbol(name: &str, symbol: &str) -> (v: Value<T, F>)
        ensures
            v@ == (ValueModel { name: name@, symbol: Some(symbol@), offset: 0, addr: None }),
    {
        Value {
            name: name.to_owned(),
            source: ValueSource::Symbol(symbol.to_owned()),
            addr: None,
            value_type: PhantomData,
            fn_type: PhantomData,
        }
    }

    /// A value whose address is stored `offset` bytes into the code of the
    /// function it is relative to.
    pub fn relative(name: &str, offset: usize) -> (v: Value<T, F>)
        ensures
            v@ == (ValueModel { name: name@, symbol: None, offset, addr: None }),
    {
        Value { name: name.to_owned(), source: ValueSource::Relative { offset }, addr: None, value_type: PhantomData, fn_type: PhantomData }
    }

    /// The symbol the value is found by; `None` for a value found relative
    /// to a function.
    pub fn symbol(&self) -> (r: Option<String>)
        ensures
            opt_str_view(r) == self@.symbol,
    {
        match &self.source {
            ValueSource::Symbol(s) => Some(s.clone()),
            ValueSource::Relative { .. } => None,
        }
    }

    /// The offset into the function's code at which a relative value's
    /// address is stored; 0 for a value found by symbol.
    pub fn offset(&self) -> (r: usize)
        ensures
            r == self@.offset,
    {
        match &self.source {
            ValueSource::Symbol(_) => 0,
            ValueSource::Relative { offset } => *offset,
        }
    }

    /// The address found so far.
    pub fn cached_addr(&self) -> (r: Option<usize>)
        ensures
            r == self@.addr,
    {
        self.addr
    }

    /// What to do to learn the value's address: the cached one, else the
    /// first of `dlsym`'s and the symbol table's results, or for a value
    /// relative to a function, the word at `relative_base + offset`.
    pub fn location(&self, dlsym: Option<usize>, table: Option<usize>, relative_base: usize) -> (r: ValueLookup)
        requires
            self@.symbol is None ==> relative_base + self@.offset <= usize::MAX,
        ensures
            r == value_lookup(self@, dlsym, table, relative_base),
    {
        if let Some(a) = self.addr {
            return ValueLookup::Known(a);
        }
        match &self.source {
            ValueSource::Symbol(_) => {
                if let Some(a) = dlsym {
                    ValueLookup::Known(a)
                } else if let Some(a) = table {
                    ValueLookup::Known(a)
                } else {
                    ValueLookup::Unresolved
                }
            },
            ValueSource::Relative { offset } => ValueLookup::ReadWordAt(relative_base + *offset),
        }
    }

    /// Remember the address found; it is found only once.
    pub fn set_addr(&mut self, addr: usize)
        requires
            old(self)@.addr is None,
        ensures
            final(self)@ == (ValueModel { addr: Some(addr), ..old(self)@ }),
    {
        self.addr = Some(addr);
    }
}


/// The text of a bind error.
pub open spec fn bind_error_text(e: BindError) -> Seq<char> {
    match e {
        BindError::AlreadyBound(f) => "Tried to find '"@ + f@ + "' but it has already been found"@,
        BindError::NotFound(f) => "Could not find '"@ + f@ + "'"@,
    }
}

/// `v` as the unsigned number of the address width (32 or 64 bits).
pub open spec fn as_address(v: int, wide: bool) -> nat {
    if wide {
        (v % 0x1_0000_0000_0000_0000) as nat
    } else {
        (v % 0x1_0000_0000) as nat
    }
}

/// The digits of an address in messages: 16 on x86-64, 8 on x86.
pub open spec fn addr_width(wide: bool) -> nat {
    if wide { 16 } else { 8 }
}

/// The text of a hook failure of the function `name`.
pub open spec fn failure_text(f: HookFailure, name: Seq<char>) -> Seq<char> {
    let suffix = " (function: "@ + name + ")"@;
    match f {
        HookFailure::Prologue { addr, patch_size, wide, error } => match error {
            PrologueError::TooLong => if wide {
                "Prologue at 0x"@ + hex(addr as nat, 16) + " too long to copy (>"@ + dec(24)
                    + " bytes without reaching patch size "@ + dec(patch_size as nat) + ")"@ + suffix
            } else {
                "Prologue at 0x"@ + hex(addr as nat, 8) + " too long to copy (>"@ + dec(16)
                    + " bytes without reaching patch size)"@ + suffix
            },
            PrologueError::UnknownOpcode { opcode, offset } => (if wide {
                "Unknown x86-64 opcode 0x"@
            } else {
                "Unknown x86 opcode 0x"@
            }) + hex(opcode as nat, 2) + " at 0x"@ + hex(addr as nat, addr_width(wide)) + "+"@ + dec(offset as nat)
                + " while scanning prologue"@ + suffix,
        },
        HookFailure::Relocation { addr, wide, error } => "Cannot relocate "@ + (if error.opcode == 0xE8 {
            "CALL"@
        } else {
            "JMP"@
        }) + " at 0x"@ + hex(addr as nat, addr_width(wide)) + "+"@ + dec(error.offset as nat) + ": target 0x"@
            + hex(as_address(error.branch_target as int, wide), 0) + " too far from trampoline 0x"@ + hex(
            as_address(error.trampoline_end as int, wide),
            0,
        ) + suffix,
        HookFailure::System(m) => m@,
    }
}

/// The text of a hook error.
pub open spec fn hook_error_text(e: HookError) -> Seq<char> {
    match e {
        HookError::Unbound(f) => "Tried to hook '"@ + f@ + "' before it was found"@,
        HookError::AlreadyHooked(f) => "Tried to hook '"@ + f@ + "' while already hooked"@,
        HookError::Hook(f, failure) => "Low-level error while hooking '"@ + f@ + "': "@ + failure_text(failure, f@),
    }
}

/// The text of an unhook error.
pub open spec fn unhook_error_text(e: UnhookError) -> Seq<char> {
    match e {
        UnhookError::NotHooked(n) => n@ + " is not hooked"@,
        UnhookError::Hook(n, err) => "failed to unhook "@ + n@ + ": "@ + err@,
    }
}

/// The unsigned number of the address width for `v`.
fn address_number(v: i128, wide: bool) -> (r: u64)
    ensures
        r as nat == as_address(v as int, wide),
{
    if wide {
        let m: i128 = v % 0x1_0000_0000_0000_0000;
        let m: i128 = if m < 0 { m + 0x1_0000_0000_0000_0000 } else { m };
        assert(m == v as int % 0x1_0000_0000_0000_0000);
        m as u64
    } else {
        let m: i128 = v % 0x1_0000_0000;
        let m: i128 = if m < 0 { m + 0x1_0000_0000 } else { m };
        assert(m == v as int % 0x1_0000_0000);
        m as u64
    }
}

impl BindError {
    /// The message of the error.
    pub fn message(&self) -> (s: String)
        ensures
            s@ == bind_error_text(*self),
    {
        match self {
            BindError::AlreadyBound(f) => String::from_str("Tried to find '").concat(f.as_str()).concat(
                "' but it has already been found",
            ),
            BindError::NotFound(f) => String::from_str("Could not find '").concat(f.as_str()).concat("'"),
        }
    }
}

impl HookFailure {
    /// The message of the failure of hooking the function `name`.
    pub fn message(&self, name: &str) -> (s: String)
        ensures
            s@ == failure_text(*self, name@),
    {
        let suffix = String::from_str(" (function: ").concat(name).concat(")");
        match self {
            HookFailure::Prologue { addr, patch_size, wide, error } => match error {
                PrologueError::TooLong => if *wide {
                    String::from_str("Prologue at 0x").concat(hex_string(*addr as u64, 16).as_str()).concat(
                        " too long to copy (>",
                    ).concat(dec_string(24).as_str()).concat(" bytes without reaching patch size ").concat(
                        dec_string(*patch_size as u64).as_str(),
                    ).concat(")").concat(suffix.as_str())
                } else {
                    String::from_str("Prologue at 0x").concat(hex_string(*addr as u64, 8).as_str()).concat(
                        " too long to copy (>",
                    ).concat(dec_string(16).as_str()).concat(" bytes without reaching patch size)").concat(
                        suffix.as_str(),
                    )
                },
                PrologueError::UnknownOpcode { opcode, offset } => {
                    let head = if *wide {
                        String::from_str("Unknown x86-64 opcode 0x")
                    } else {
                        String::from_str("Unknown x86 opcode 0x")
                    };
                    let width: usize = if *wide { 16 } else { 8 };
                    head.concat(hex_string(*opcode as u64, 2).as_str()).concat(" at 0x").concat(
                        hex_string(*addr as u64, width).as_str(),
                    ).concat("+").concat(dec_string(*offset as u64).as_str()).concat(" while scanning prologue").concat(
                        suffix.as_str(),
                    )
                },
            },
            HookFailure::Relocation { addr, wide, error } => {
                let kind = if error.opcode == 0xE8 {
                    String::from_str("CALL")
                } else {
                    String::from_str("JMP")
                };
                let width: usize = if *wide { 16 } else { 8 };
                String::from_str("Cannot relocate ").concat(kind.as_str()).concat(" at 0x").concat(
                    hex_string(*addr as u64, width).as_str(),
                ).concat("+").concat(dec_string(error.offset as u64).as_str()).concat(": target 0x").concat(
                    hex_string(address_number(error.branch_target, *wide), 0).as_str(),
                ).concat(" too far from trampoline 0x").concat(
                    hex_string(address_number(error.trampoline_end, *wide), 0).as_str(),
                ).concat(suffix.as_str())
            },
            HookFailure::System(m) => m.clone(),
        }
    }
}

impl HookError {
    /// The message of the error.
    pub fn message(&self) -> (s: String)
        ensures
            s@ == hook_error_text(*self),
    {
        match self {
            HookError::Unbound(f) => String::from_str("Tried to hook '").concat(f.as_str()).concat(
                "' before it was found",
            ),
            HookError::AlreadyHooked(f) => String::from_str("Tried to hook '").concat(f.as_str()).concat(
                "' while already hooked",
            ),
            HookError::Hook(f, failure) => String::from_str("Low-level error while hooking '").concat(
                f.as_str(),
            ).concat("': ").concat(failure.message(f.as_str()).as_str()),
        }
    }
}

impl UnhookError {
    /// The message of the error.
    pub fn message(&self) -> (s: String)
        ensures
            s@ == unhook_error_text(*self),
    {
        match self {
            UnhookError::NotHooked(n) => n.clone().concat(" is not hooked"),
            UnhookError::Hook(n, err) => String::from_str("failed to unhook ").concat(n.as_str()).concat(": ").concat(
                err.as_str(),
            ),
        }
    }
}

} // verus!
