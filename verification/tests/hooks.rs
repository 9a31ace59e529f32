use grimmod::init::StringError;
use grimmod::memory_linux::{
    build_hook_patch, build_trampoline, page_range, BindError, BoundFn, BranchOutOfRange,
    HookError, HookFailure, HookPatch, HookSite, OriginalFn, PrologueError, Restore,
    UnhookError, Value, ValueLookup,
};

fn padded(prefix: &[u8], len: usize) -> Vec<u8> {
    let mut v = prefix.to_vec();
    while v.len() < len {
        v.push(0x90);
    }
    v
}

fn standard_site(trampoline_addr: usize) -> HookSite {
    HookSite::Code {
        bytes: padded(&[0x55, 0x89, 0xE5, 0x83, 0xEC, 0x18], 20),
        trampoline_addr,
    }
}

#[test]
fn trampoline_copies_plain_prologue_and_jumps_back() {
    let code = padded(&[0x55, 0x89, 0xE5, 0x83, 0xEC, 0x18], 20);
    let t = build_trampoline(&code, 6, 0x401000, 0x500000).unwrap();
    // jump from 0x500006 back to 0x401006: rel = 0x401006 - 0x50000B
    assert_eq!(
        t,
        vec![0x55, 0x89, 0xE5, 0x83, 0xEC, 0x18, 0xE9, 0xFB, 0x0F, 0xF0, 0xFF]
    );
}

#[test]
fn trampoline_relocates_call() {
    let code = padded(&[0xE8, 0, 0, 0, 0], 20);
    let t = build_trampoline(&code, 5, 0x1000, 0x2000).unwrap();
    // the call still lands on 0x1005; the jump returns to 0x1005
    assert_eq!(
        t,
        vec![0xE8, 0x00, 0xF0, 0xFF, 0xFF, 0xE9, 0xFB, 0xEF, 0xFF, 0xFF]
    );
}

#[test]
fn trampoline_branch_out_of_range() {
    let code = padded(&[0xE8, 0xFF, 0xFF, 0xFF, 0xFF], 20);
    let e = build_trampoline(&code, 5, 0x7000_0000, 0xF000_0000).unwrap_err();
    assert_eq!(
        e,
        BranchOutOfRange {
            offset: 0,
            opcode: 0xE8,
            branch_target: 0x7000_0004,
            trampoline_end: 0xF000_0005,
        }
    );
}

#[test]
fn hook_patch_jumps_and_pads() {
    assert_eq!(
        build_hook_patch(0x1000, 0x2000, 6),
        vec![0xE9, 0xFB, 0x0F, 0x00, 0x00, 0x90]
    );
    // backwards jump
    assert_eq!(
        build_hook_patch(0x2000, 0x1000, 5),
        vec![0xE9, 0xFB, 0xEF, 0xFF, 0xFF]
    );
}

#[test]
fn page_range_covers_the_bytes() {
    assert_eq!(page_range(0x1234, 5, 0x1000), (0x1000, 0x1000));
    assert_eq!(page_range(0x1FFE, 4, 0x1000), (0x1000, 0x2000));
    assert_eq!(page_range(0x3000, 0x1000, 0x1000), (0x3000, 0x1000));
}

#[test]
fn bind_once() {
    let mut f: BoundFn<()> = BoundFn::direct("f", None);
    assert_eq!(f.get_addr(), 0);
    assert!(f.bind(0x1000).is_ok());
    match f.bind(0x2000) {
        Err(e) => {
            assert!(matches!(&e, BindError::AlreadyBound(n) if n == "f"));
            assert_eq!(e.message(), "Tried to find 'f' but it has already been found");
        }
        Ok(()) => panic!("bound twice"),
    }
    assert_eq!(f.get_addr(), 0x1000);
}

#[test]
fn bind_dlsym_not_found() {
    let mut f: BoundFn<()> = BoundFn::indirect("g");
    let e = f.bind_dlsym(None).unwrap_err();
    assert_eq!(e.message(), "Could not find 'g'");
    assert_eq!(f.get_addr(), 0);
    assert!(f.bind_dlsym(Some(0x44)).is_ok());
    assert_eq!(f.get_addr(), 0x44);
}

#[test]
fn hook_unbound_is_refused() {
    let f: BoundFn<()> = BoundFn::direct("f", Some("f_symbol"));
    let e = f.hook(0x3000, &standard_site(0x500000)).unwrap_err();
    assert!(matches!(&e, HookError::Unbound(n) if n == "f"));
    assert_eq!(e.message(), "Tried to hook 'f' before it was found");
    assert_eq!(f.original_fn_addr(), None);
}

#[test]
fn inline_hook_and_unhook() {
    let mut f: BoundFn<()> = BoundFn::direct("f", None);
    f.bind(0x1000).unwrap();
    assert_eq!(f.original_fn_addr(), Some(OriginalFn::Code(0x1000)));
    let patch = f.hook(0x3000, &standard_site(0x500000)).unwrap();
    match &patch {
        HookPatch::Inline { target_addr, trampoline_addr, trampoline, patch, saved_bytes } => {
            assert_eq!(*target_addr, 0x1000);
            assert_eq!(*trampoline_addr, 0x500000);
            assert_eq!(
                trampoline,
                &vec![0x55, 0x89, 0xE5, 0x83, 0xEC, 0x18, 0xE9, 0xFB, 0x0F, 0xB0, 0xFF]
            );
            assert_eq!(patch, &vec![0xE9, 0xFB, 0x1F, 0x00, 0x00, 0x90]);
            assert_eq!(saved_bytes, &vec![0x55, 0x89, 0xE5, 0x83, 0xEC, 0x18]);
        }
        HookPatch::Slot { .. } => panic!("direct function hooked by slot"),
    }
    // nothing changes until the patch is recorded
    assert!(!f.is_hooked());
    f.hook_installed(patch);
    assert!(f.is_hooked());
    assert_eq!(f.original_fn_addr(), Some(OriginalFn::Code(0x500000)));
    assert_eq!(f.original_fn_addr_or_panic(), OriginalFn::Code(0x500000));
    let e = f.hook(0x3000, &standard_site(0x600000)).unwrap_err();
    assert_eq!(e.message(), "Tried to hook 'f' while already hooked");
    match f.unhook().unwrap() {
        Restore::Inline { target_addr, bytes } => {
            assert_eq!(target_addr, 0x1000);
            assert_eq!(bytes, vec![0x55, 0x89, 0xE5, 0x83, 0xEC, 0x18]);
        }
        Restore::Slot { .. } => panic!("wrong restore"),
    }
    assert!(!f.is_hooked());
    assert_eq!(f.original_fn_addr(), Some(OriginalFn::Code(0x1000)));
    // hooking and unhooking leave the bound address as the first bind gave it
    assert_eq!(f.get_addr(), 0x1000);
    assert!(f.bind(0x2000).is_err());
    assert_eq!(f.get_addr(), 0x1000);
    let e = f.unhook().unwrap_err();
    assert!(matches!(&e, UnhookError::NotHooked(n) if n == "f"));
    assert_eq!(e.message(), "f is not hooked");
}

#[test]
fn slot_hook_and_unhook() {
    let mut g: BoundFn<()> = BoundFn::indirect("g");
    g.bind(0x8000).unwrap();
    assert_eq!(g.original_fn_addr(), Some(OriginalFn::StoredIn(0x8000)));
    let patch = g.hook(0x3000, &HookSite::Slot { current: 0x7777 }).unwrap();
    match &patch {
        HookPatch::Slot { slot_addr, replacement_addr, original_addr } => {
            assert_eq!((*slot_addr, *replacement_addr, *original_addr), (0x8000, 0x3000, 0x7777));
        }
        HookPatch::Inline { .. } => panic!("slot function hooked inline"),
    }
    g.hook_installed(patch);
    assert_eq!(g.original_fn_addr(), Some(OriginalFn::Code(0x7777)));
    match g.unhook().unwrap() {
        Restore::Slot { slot_addr, value } => assert_eq!((slot_addr, value), (0x8000, 0x7777)),
        Restore::Inline { .. } => panic!("wrong restore"),
    }
    assert_eq!(g.original_fn_addr(), Some(OriginalFn::StoredIn(0x8000)));
}

#[test]
fn hook_unknown_prologue_opcode() {
    let mut f: BoundFn<()> = BoundFn::direct("f", None);
    f.bind(0x1000).unwrap();
    let site = HookSite::Code { bytes: padded(&[0x06], 20), trampoline_addr: 0x500000 };
    let e = f.hook(0x3000, &site).unwrap_err();
    match &e {
        HookError::Hook(n, HookFailure::Prologue { addr, patch_size, wide, error }) => {
            assert_eq!(n, "f");
            assert_eq!((*addr, *patch_size, *wide), (0x1000, 5, false));
            assert_eq!(*error, PrologueError::UnknownOpcode { opcode: 0x06, offset: 0 });
        }
        _ => panic!("wrong error"),
    }
    assert_eq!(
        e.message(),
        "Low-level error while hooking 'f': Unknown x86 opcode 0x06 at 0x00001000+0 while scanning prologue (function: f)"
    );
}

#[test]
fn hook_branch_too_far() {
    let mut f: BoundFn<()> = BoundFn::direct("f", None);
    f.bind(0x7000_0000).unwrap();
    let site = HookSite::Code {
        bytes: padded(&[0xE8, 0xFF, 0xFF, 0xFF, 0xFF], 20),
        trampoline_addr: 0xF000_0000,
    };
    let e = f.hook(0x3000, &site).unwrap_err();
    assert_eq!(
        e.message(),
        "Low-level error while hooking 'f': Cannot relocate CALL at 0x70000000+0: target 0x70000004 too far from trampoline 0xf0000005 (function: f)"
    );
}

#[test]
fn failure_messages() {
    let too_long = HookFailure::Prologue {
        addr: 0xABC,
        patch_size: 5,
        wide: false,
        error: PrologueError::TooLong,
    };
    assert_eq!(
        too_long.message("f"),
        "Prologue at 0x00000abc too long to copy (>16 bytes without reaching patch size) (function: f)"
    );
    let too_long64 = HookFailure::Prologue {
        addr: 0xABC,
        patch_size: 14,
        wide: true,
        error: PrologueError::TooLong,
    };
    assert_eq!(
        too_long64.message("f"),
        "Prologue at 0x0000000000000abc too long to copy (>24 bytes without reaching patch size 14) (function: f)"
    );
    let system = HookFailure::System(String::from("mmap failed for trampoline (function: f)"));
    assert_eq!(system.message("f"), "mmap failed for trampoline (function: f)");
    let e = UnhookError::Hook(String::from("f"), String::from("mprotect failed"));
    assert_eq!(e.message(), "failed to unhook f: mprotect failed");
}

#[test]
fn string_err_turns_errors_into_messages() {
    let r: Result<u32, BindError> = Err(BindError::NotFound(String::from("x")));
    assert_eq!(r.string_err(), Err(String::from("Could not find 'x'")));
    let r: Result<u32, BindError> = Ok(7);
    assert_eq!(r.string_err(), Ok(7));
    let r: Result<(), HookError> = Err(HookError::Unbound(String::from("y")));
    assert_eq!(r.string_err(), Err(String::from("Tried to hook 'y' before it was found")));
    let r: Result<(), UnhookError> = Err(UnhookError::NotHooked(String::from("z")));
    assert_eq!(r.string_err(), Err(String::from("z is not hooked")));
}

#[test]
fn value_location() {
    let mut v: Value<u32, ()> = Value::from_symbol("count", "g_count");
    assert_eq!(v.cached_addr(), None);
    assert_eq!(v.location(None, Some(0x20), 0), ValueLookup::Known(0x20));
    assert_eq!(v.location(Some(0x10), Some(0x20), 0), ValueLookup::Known(0x10));
    assert_eq!(v.location(None, None, 0), ValueLookup::Unresolved);
    v.set_addr(0x10);
    assert_eq!(v.cached_addr(), Some(0x10));
    assert_eq!(v.location(None, None, 0), ValueLookup::Known(0x10));
    let r: Value<u32, ()> = Value::relative("table", 3);
    assert_eq!(r.location(None, None, 0x1000), ValueLookup::ReadWordAt(0x1003));
}
