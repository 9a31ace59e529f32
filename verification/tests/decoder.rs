use grimmod::memory_linux::{prologue_copy_len, x86_insn_len, PrologueError};
use grimmod::memory_macos;
use grimmod::x86::{field32_bytes, read_le_i32};

fn padded(prefix: &[u8], len: usize) -> Vec<u8> {
    let mut v = prefix.to_vec();
    while v.len() < len {
        v.push(0x90);
    }
    v
}

#[test]
fn x86_single_byte_instructions() {
    let code = padded(&[0x55], 8);
    assert_eq!(x86_insn_len(&code, 0), Some(1));
    let code = padded(&[0xC3], 8);
    assert_eq!(x86_insn_len(&code, 0), Some(1));
}

#[test]
fn x86_modrm_forms() {
    // mov ebp, esp
    assert_eq!(x86_insn_len(&padded(&[0x89, 0xE5], 8), 0), Some(2));
    // sub esp, 0x18
    assert_eq!(x86_insn_len(&padded(&[0x83, 0xEC, 0x18], 8), 0), Some(3));
    // mov eax, [ebp+8]
    assert_eq!(x86_insn_len(&padded(&[0x8B, 0x45, 0x08], 8), 0), Some(3));
    // mov dword [esp+4], imm32
    assert_eq!(
        x86_insn_len(&padded(&[0xC7, 0x44, 0x24, 0x04, 1, 2, 3, 4], 12), 0),
        Some(8)
    );
    // lea eax, [ebx*4+disp32]: SIB with base 5 and mod 0 takes a disp32
    assert_eq!(
        x86_insn_len(&padded(&[0x8D, 0x04, 0x9D, 0, 0, 0, 0], 12), 0),
        Some(7)
    );
    // mov eax, [disp32]
    assert_eq!(x86_insn_len(&padded(&[0x8B, 0x05, 0, 0, 0, 0], 12), 0), Some(6));
}

#[test]
fn x86_immediates_and_branches() {
    assert_eq!(x86_insn_len(&padded(&[0xE8, 0, 0, 0, 0], 8), 0), Some(5));
    assert_eq!(x86_insn_len(&padded(&[0x0F, 0x84, 0, 0, 0, 0], 8), 0), Some(6));
    assert_eq!(x86_insn_len(&padded(&[0x6A, 0x01], 8), 0), Some(2));
    assert_eq!(x86_insn_len(&padded(&[0xC2, 0x04, 0x00], 8), 0), Some(3));
    // test al, imm8 (group 3, reg 0) carries an immediate
    assert_eq!(x86_insn_len(&padded(&[0xF6, 0xC0, 0x01], 8), 0), Some(3));
    // not eax (group 3, reg 2) carries none
    assert_eq!(x86_insn_len(&padded(&[0xF7, 0xD0], 8), 0), Some(2));
    // test eax, imm32 through group 3
    assert_eq!(x86_insn_len(&padded(&[0xF7, 0xC0, 1, 2, 3, 4], 8), 0), Some(6));
}

#[test]
fn x86_unknown_opcode() {
    assert_eq!(x86_insn_len(&padded(&[0x06], 8), 0), None);
    assert_eq!(x86_insn_len(&padded(&[0x62], 8), 0), None);
}

#[test]
fn x86_prologue_copy_len_whole_instructions() {
    // push ebp; mov ebp, esp; sub esp, 0x18
    let code = padded(&[0x55, 0x89, 0xE5, 0x83, 0xEC, 0x18], 20);
    assert_eq!(prologue_copy_len(&code), Ok(6));
    // a five-byte call alone covers the patch
    let code = padded(&[0xE8, 1, 2, 3, 4], 20);
    assert_eq!(prologue_copy_len(&code), Ok(5));
}

#[test]
fn x86_prologue_copy_len_unknown_opcode() {
    let code = padded(&[0x55, 0x06], 20);
    assert_eq!(
        prologue_copy_len(&code),
        Err(PrologueError::UnknownOpcode { opcode: 0x06, offset: 1 })
    );
}

#[test]
fn x86_64_lengths() {
    let l = memory_macos::x86_64_insn_len;
    assert_eq!(l(&padded(&[0x55], 8), 0), Some(1));
    // mov rbp, rsp
    assert_eq!(l(&padded(&[0x48, 0x89, 0xE5], 8), 0), Some(3));
    // sub rsp, 0x20
    assert_eq!(l(&padded(&[0x48, 0x83, 0xEC, 0x20], 8), 0), Some(4));
    // mov rax, imm64
    assert_eq!(l(&padded(&[0x48, 0xB8, 1, 2, 3, 4, 5, 6, 7, 8], 16), 0), Some(10));
    // mov eax, imm32
    assert_eq!(l(&padded(&[0xB8, 1, 2, 3, 4], 8), 0), Some(5));
    // lea rax, [rip+disp32]
    assert_eq!(l(&padded(&[0x48, 0x8D, 0x05, 1, 0, 0, 0], 12), 0), Some(7));
    // push r12
    assert_eq!(l(&padded(&[0x41, 0x54], 8), 0), Some(2));
    // a legacy prefix before NOP
    assert_eq!(l(&padded(&[0x66, 0x90], 8), 0), Some(2));
    // jne rel32
    assert_eq!(l(&padded(&[0x0F, 0x85, 0, 0, 0, 0], 8), 0), Some(6));
    // mov eax, moffs64: an 8-byte offset
    assert_eq!(l(&padded(&[0xA1, 1, 2, 3, 4, 5, 6, 7, 8], 16), 0), Some(9));
    // with an address-size override the offset is 4 bytes
    assert_eq!(l(&padded(&[0x67, 0xA1, 0x44, 0x33, 0x22, 0x11], 16), 0), Some(6));
    assert_eq!(l(&padded(&[0x66, 0x67, 0xA3, 0x44, 0x33, 0x22, 0x11], 16), 0), Some(7));
}

#[test]
fn x86_64_unknown_and_truncated() {
    let l = memory_macos::x86_64_insn_len;
    assert_eq!(l(&padded(&[0x06], 8), 0), None);
    // the decoder needs five bytes to look at
    assert_eq!(l(&[0x55, 0x90, 0x90], 0), None);
}

#[test]
fn x86_64_prologue_copy_len() {
    // push rbp; mov rbp, rsp; sub rsp, 0x20
    let code = padded(&[0x55, 0x48, 0x89, 0xE5, 0x48, 0x83, 0xEC, 0x20], 48);
    assert_eq!(memory_macos::prologue_copy_len(&code, 5), Ok(8));
    // ... push rbx; lea rax, [rip+8]: 16 bytes reach the absolute jump's 14
    let code = padded(
        &[0x55, 0x48, 0x89, 0xE5, 0x48, 0x83, 0xEC, 0x20, 0x53, 0x48, 0x8D, 0x05, 8, 0, 0, 0],
        48,
    );
    assert_eq!(memory_macos::prologue_copy_len(&code, 14), Ok(16));
    let code = padded(&[0x55, 0x06], 48);
    assert_eq!(
        memory_macos::prologue_copy_len(&code, 5),
        Err(PrologueError::UnknownOpcode { opcode: 0x06, offset: 1 })
    );
}

#[test]
fn le_fields_roundtrip() {
    let f = field32_bytes(-0x1000);
    assert_eq!(f, vec![0x00, 0xF0, 0xFF, 0xFF]);
    assert_eq!(read_le_i32(&f, 0), -0x1000);
    let f = field32_bytes(0x12345678);
    assert_eq!(f, vec![0x78, 0x56, 0x34, 0x12]);
    assert_eq!(read_le_i32(&f, 0), 0x12345678);
}
