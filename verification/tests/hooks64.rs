use grimmod::memory_macos::{
    build_hook_patch, build_trampoline, jmp_patch_size, near_hint, near_outcome, near_plan, within_rel32_range,
    NearOutcome, NearStep,
    write_jmp, write_jmp_abs64, write_jmp_rel32, BoundFn, HookPatch, HookSite, OriginalFn,
    Restore,
};

fn padded(prefix: &[u8], len: usize) -> Vec<u8> {
    let mut v = prefix.to_vec();
    while v.len() < len {
        v.push(0x90);
    }
    v
}

const PROLOGUE64: [u8; 8] = [0x55, 0x48, 0x89, 0xE5, 0x48, 0x83, 0xEC, 0x20];

#[test]
fn patch_size_by_distance() {
    assert_eq!(jmp_patch_size(0x1000, 0x2000), 5);
    assert_eq!(jmp_patch_size(0x1000, 0x7000_0000_0000), 14);
    // the edge of the rel32 reach, both sides
    assert_eq!(jmp_patch_size(0, 0x8000_0004), 5);
    assert_eq!(jmp_patch_size(0, 0x8000_0005), 14);
    assert_eq!(jmp_patch_size(0x8000_0000, 5 + 0x8000_0000 - 0x7FFF_FFFF), 5);
    assert_eq!(jmp_patch_size(0x8000_0000, 4 + 0x8000_0000 - 0x7FFF_FFFF), 14);
}

#[test]
fn jumps() {
    assert_eq!(write_jmp_rel32(0x1000, 0x2000), vec![0xE9, 0xFB, 0x0F, 0x00, 0x00]);
    assert_eq!(
        write_jmp_abs64(0x1122_3344_5566_7788),
        vec![0xFF, 0x25, 0, 0, 0, 0, 0x88, 0x77, 0x66, 0x55, 0x44, 0x33, 0x22, 0x11]
    );
    assert_eq!(write_jmp(0x1000, 0x2000), vec![0xE9, 0xFB, 0x0F, 0x00, 0x00]);
    assert_eq!(write_jmp(0x1000, 0x7000_0000_0000).len(), 14);
}

#[test]
fn hook_patch64_near_and_far() {
    assert_eq!(
        build_hook_patch(0x1000_0000, 0x1000_2000, 8),
        vec![0xE9, 0xFB, 0x1F, 0x00, 0x00, 0x90, 0x90, 0x90]
    );
    assert_eq!(
        build_hook_patch(0x1000_0000, 0x7000_0000_0000, 14),
        vec![0xFF, 0x25, 0, 0, 0, 0, 0, 0, 0, 0, 0, 0x70, 0, 0]
    );
}

#[test]
fn trampoline64_adjusts_rip_relative_operand() {
    // lea rax, [rip+0x10]
    let code = padded(&[0x48, 0x8D, 0x05, 0x10, 0, 0, 0], 48);
    let t = build_trampoline(&code, 7, 0x1000_0000, 0x1000_1000).unwrap();
    assert_eq!(
        t,
        vec![0x48, 0x8D, 0x05, 0x10, 0xF0, 0xFF, 0xFF, 0xE9, 0xFB, 0xEF, 0xFF, 0xFF]
    );
}

#[test]
fn trampoline64_leaves_operands_without_modrm() {
    // mov rax, imm64: no ModR/M byte, so nothing is taken for a RIP-relative operand
    let code = padded(&[0x48, 0xB8, 0x05, 0x00, 0x00, 0x00, 0x11, 0x22, 0x33, 0x44], 48);
    let t = build_trampoline(&code, 10, 0x1000_0000, 0x1000_1000).unwrap();
    assert_eq!(
        t,
        vec![0x48, 0xB8, 0x05, 0x00, 0x00, 0x00, 0x11, 0x22, 0x33, 0x44, 0xE9, 0xFB, 0xEF, 0xFF, 0xFF]
    );
}

#[test]
fn trampoline64_relocates_call_and_refuses_far_branch() {
    let code = padded(&[0xE8, 0, 0, 0, 0], 48);
    let t = build_trampoline(&code, 5, 0x1000, 0x2000).unwrap();
    assert_eq!(
        t,
        vec![0xE8, 0x00, 0xF0, 0xFF, 0xFF, 0xE9, 0xFB, 0xEF, 0xFF, 0xFF]
    );
    let code = padded(&[0xE8, 0xFF, 0xFF, 0xFF, 0xFF], 48);
    let e = build_trampoline(&code, 5, 0x1000_0000, 0x9000_0000).unwrap_err();
    assert_eq!((e.offset, e.opcode), (0, 0xE8));
    assert_eq!((e.branch_target, e.trampoline_end), (0x1000_0004, 0x9000_0005));
}

#[test]
fn hook64_failure_messages() {
    let mut f: BoundFn<()> = BoundFn::direct("f", None);
    f.bind(0x1000_0000).unwrap();
    let site = HookSite::Code {
        bytes: padded(&[0xE8, 0xFF, 0xFF, 0xFF, 0xFF], 48),
        trampoline_addr: 0x9000_0000,
    };
    let e = f.hook(0x1000_2000, &site).unwrap_err();
    assert_eq!(
        e.message(),
        "Low-level error while hooking 'f': Cannot relocate CALL at 0x0000000010000000+0: target 0x10000004 too far from trampoline 0x90000005 (function: f)"
    );
    let site = HookSite::Code { bytes: padded(&[0x55, 0x06], 48), trampoline_addr: 0x1000_1000 };
    let e = f.hook(0x1000_2000, &site).unwrap_err();
    assert_eq!(
        e.message(),
        "Low-level error while hooking 'f': Unknown x86-64 opcode 0x06 at 0x0000000010000000+1 while scanning prologue (function: f)"
    );
}

#[test]
fn near_hints() {
    let t = 0x1000_0000_0000usize;
    assert_eq!(near_hint(t, 0x1000, 0), Some(t - 0x10000));
    assert_eq!(near_hint(t, 0x1000, 1), Some(t + 0x10000));
    assert_eq!(near_hint(t, 0x1000, 2), Some(t - 0x20000));
    assert_eq!(near_hint(t, 0x1000, 3), Some(t + 0x20000));
    // rounded down to the page
    assert_eq!(near_hint(0x1234_5678, 0x1000, 1), Some(0x1235_5000));
    // address zero is never a hint
    assert_eq!(near_hint(0x10000, 0x1000, 0), None);
    assert!(within_rel32_range(t + 0x7FFF_FFFF, t));
    assert!(!within_rel32_range(t + 0x8000_0000, t));
    assert!(within_rel32_range(t - 0x7FFF_FFFF, t));
}

#[test]
fn inline_hook64_with_cache() {
    let mut f: BoundFn<()> = BoundFn::direct("f", None);
    assert_eq!(f.original_fn_addr_fast(), 0);
    f.bind(0x1000_0000).unwrap();
    assert_eq!(f.original_fn_addr_fast(), 0x1000_0000);
    let site = HookSite::Code { bytes: padded(&PROLOGUE64, 48), trampoline_addr: 0x1000_1000 };
    let patch = f.hook(0x1000_2000, &site).unwrap();
    match &patch {
        HookPatch::Inline { trampoline, patch, saved_bytes, .. } => {
            assert_eq!(
                trampoline,
                &vec![0x55, 0x48, 0x89, 0xE5, 0x48, 0x83, 0xEC, 0x20, 0xE9, 0xFB, 0xEF, 0xFF, 0xFF]
            );
            assert_eq!(patch, &vec![0xE9, 0xFB, 0x1F, 0x00, 0x00, 0x90, 0x90, 0x90]);
            assert_eq!(saved_bytes, &PROLOGUE64.to_vec());
        }
        HookPatch::Slot { .. } => panic!("direct function hooked by slot"),
    }
    f.hook_installed(patch);
    assert_eq!(f.original_fn_addr_fast(), 0x1000_1000);
    assert_eq!(f.original_fn_addr_or_panic(), OriginalFn::Code(0x1000_1000));
    match f.unhook().unwrap() {
        Restore::Inline { target_addr, bytes } => {
            assert_eq!(target_addr, 0x1000_0000);
            assert_eq!(bytes, PROLOGUE64.to_vec());
        }
        Restore::Slot { .. } => panic!("wrong restore"),
    }
    assert_eq!(f.original_fn_addr_fast(), 0x1000_0000);
}

#[test]
fn far_replacement_needs_fourteen_bytes() {
    let mut f: BoundFn<()> = BoundFn::direct("f", None);
    f.bind(0x1000_0000).unwrap();
    let site = HookSite::Code { bytes: padded(&PROLOGUE64, 48), trampoline_addr: 0x1000_1000 };
    match f.hook(0x7000_0000_0000, &site).unwrap() {
        HookPatch::Inline { patch, saved_bytes, .. } => {
            assert_eq!(patch.len(), 14);
            assert_eq!(saved_bytes.len(), 14);
        }
        HookPatch::Slot { .. } => panic!("direct function hooked by slot"),
    }
}

#[test]
fn slot_hook64_primes_cache() {
    let mut g: BoundFn<()> = BoundFn::indirect("g");
    g.bind(0x8000).unwrap();
    assert_eq!(g.original_fn_addr_fast(), 0);
    assert_eq!(g.original_fn_addr_or_panic(), OriginalFn::StoredIn(0x8000));
    g.prime_cache(0x5555);
    assert_eq!(g.original_fn_addr_or_panic(), OriginalFn::Code(0x5555));
    let patch = g.hook(0x3000, &HookSite::Slot { current: 0x5555 }).unwrap();
    g.hook_installed(patch);
    assert_eq!(g.original_fn_addr(), Some(OriginalFn::Code(0x5555)));
    match g.unhook().unwrap() {
        Restore::Slot { slot_addr, value } => assert_eq!((slot_addr, value), (0x8000, 0x5555)),
        Restore::Inline { .. } => panic!("wrong restore"),
    }
    assert_eq!(g.original_fn_addr_fast(), 0x5555);
}

#[test]
fn near_search_steps() {
    let t = 0x1000_0000_0000usize;
    assert_eq!(near_plan(t, 0x1000, 0), NearStep::TryAt { attempt: 0, hint: t - 0x10000 });
    assert_eq!(near_plan(t, 0x1000, 3), NearStep::TryAt { attempt: 3, hint: t + 0x20000 });
    // the first candidate below 0x10000 is address 0, which is skipped
    assert_eq!(near_plan(0x10000, 0x1000, 0), NearStep::TryAt { attempt: 1, hint: 0x20000 });
    assert_eq!(near_plan(t, 0x1000, 4096), NearStep::Anywhere);
    assert_eq!(near_outcome(t, Some(t + 0x1000)), NearOutcome::Accept(t + 0x1000));
    assert_eq!(near_outcome(t, Some(t + 0x8000_0000)), NearOutcome::Release(t + 0x8000_0000));
    assert_eq!(near_outcome(t, None), NearOutcome::Retry);
}

#[test]
fn fast_path_follows_the_original() {
    let mut g: BoundFn<()> = BoundFn::indirect("g");
    assert_eq!(g.original_fn_addr_fast(), 0);
    g.bind(0x8000).unwrap();
    // a slot function's fast path waits for its slot to be read
    assert_eq!(g.original_fn_addr_fast(), 0);
    g.prime_cache(0x4444);
    assert_eq!(g.original_fn_addr_fast(), 0x4444);
    let mut f: BoundFn<()> = BoundFn::direct("f", None);
    f.bind(0x1000_0000).unwrap();
    assert_eq!(f.original_fn_addr_fast(), 0x1000_0000);
}
