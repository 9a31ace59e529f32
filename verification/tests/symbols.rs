use grimmod::process_linux::{
    build_elf_symbol_map, build_got_map, elf_symbol_lookup, first_argument, got_entry_lookup,
    is_game_binary, try_demangle_itanium, ProcessSymbols,
};
use grimmod::process_macos::{
    build_macho_symbol_map, build_stub_pointer_map, macho_symbol_lookup, stub_pointer_lookup, MachSymbols,
};
use grimmod::macho_bind::{bind_run_check, bind_stream_safe};
use grimmod::elf_check::elf_parse_check;
use grimmod::memory_linux::BoundFn;
use grimmod::sdl::{bind_static_fns, SdlFns};
use grimmod::symbol_map::SymbolMap;

fn push_u16(v: &mut Vec<u8>, x: u16) {
    v.extend_from_slice(&x.to_le_bytes());
}

fn push_u32(v: &mut Vec<u8>, x: u32) {
    v.extend_from_slice(&x.to_le_bytes());
}

/// A 32-bit little-endian ELF executable with a `.symtab` holding the given
/// named symbols, and no dynamic section.
fn elf32_with_symbols(symbols: &[(&str, u32)]) -> Vec<u8> {
    let mut strtab = vec![0u8];
    let mut name_offsets = Vec::new();
    for (name, _) in symbols {
        name_offsets.push(strtab.len() as u32);
        strtab.extend_from_slice(name.as_bytes());
        strtab.push(0);
    }
    let shstrtab = b"\0.symtab\0.strtab\0.shstrtab\0".to_vec();
    let mut symtab = vec![0u8; 16];
    for (i, (_, value)) in symbols.iter().enumerate() {
        push_u32(&mut symtab, name_offsets[i]);
        push_u32(&mut symtab, *value);
        push_u32(&mut symtab, 0);
        symtab.push(0x12); // global function
        symtab.push(0);
        push_u16(&mut symtab, 1);
    }
    let strtab_off = 52u32;
    let symtab_off = strtab_off + strtab.len() as u32;
    let shstrtab_off = symtab_off + symtab.len() as u32;
    let mut shoff = shstrtab_off + shstrtab.len() as u32;
    shoff = (shoff + 3) & !3;

    let mut out = vec![0x7F, b'E', b'L', b'F', 1, 1, 1, 0, 0, 0, 0, 0, 0, 0, 0, 0];
    push_u16(&mut out, 2); // executable
    push_u16(&mut out, 3); // i386
    push_u32(&mut out, 1);
    push_u32(&mut out, 0); // entry
    push_u32(&mut out, 0); // no program headers
    push_u32(&mut out, shoff);
    push_u32(&mut out, 0);
    push_u16(&mut out, 52);
    push_u16(&mut out, 32);
    push_u16(&mut out, 0);
    push_u16(&mut out, 40);
    push_u16(&mut out, 4);
    push_u16(&mut out, 3);
    assert_eq!(out.len(), 52);
    out.extend_from_slice(&strtab);
    out.extend_from_slice(&symtab);
    out.extend_from_slice(&shstrtab);
    while out.len() < shoff as usize {
        out.push(0);
    }
    let section = |out: &mut Vec<u8>, name: u32, ty: u32, off: u32, size: u32, link: u32, info: u32, align: u32, entsize: u32| {
        push_u32(out, name);
        push_u32(out, ty);
        push_u32(out, 0);
        push_u32(out, 0);
        push_u32(out, off);
        push_u32(out, size);
        push_u32(out, link);
        push_u32(out, info);
        push_u32(out, align);
        push_u32(out, entsize);
    };
    section(&mut out, 0, 0, 0, 0, 0, 0, 0, 0);
    section(&mut out, 1, 2, symtab_off, symtab.len() as u32, 2, 1, 4, 16);
    section(&mut out, 9, 3, strtab_off, strtab.len() as u32, 0, 0, 1, 0);
    section(&mut out, 17, 3, shstrtab_off, shstrtab.len() as u32, 0, 0, 1, 0);
    out
}


fn push_u64(v: &mut Vec<u8>, x: u64) {
    v.extend_from_slice(&x.to_le_bytes());
}

/// A 64-bit x86 Mach-O executable whose only load command is an
/// `LC_SYMTAB` holding the given symbols.
fn macho64_with_symbols(symbols: &[(&str, u64)]) -> Vec<u8> {
    let mut strtab = vec![0u8];
    let mut name_offsets = Vec::new();
    for (name, _) in symbols {
        name_offsets.push(strtab.len() as u32);
        strtab.extend_from_slice(name.as_bytes());
        strtab.push(0);
    }
    let symoff = 32 + 24;
    let stroff = symoff + 16 * symbols.len() as u32;
    let mut out = Vec::new();
    push_u32(&mut out, 0xFEED_FACF);
    push_u32(&mut out, 0x0100_0007);
    push_u32(&mut out, 3);
    push_u32(&mut out, 2); // executable
    push_u32(&mut out, 1); // one load command
    push_u32(&mut out, 24);
    push_u32(&mut out, 0);
    push_u32(&mut out, 0);
    push_u32(&mut out, 2); // LC_SYMTAB
    push_u32(&mut out, 24);
    push_u32(&mut out, symoff);
    push_u32(&mut out, symbols.len() as u32);
    push_u32(&mut out, stroff);
    push_u32(&mut out, strtab.len() as u32);
    for (i, (_, value)) in symbols.iter().enumerate() {
        push_u32(&mut out, name_offsets[i]);
        out.push(0x0F); // defined in a section, external
        out.push(1);
        push_u16(&mut out, 0);
        push_u64(&mut out, *value);
    }
    out.extend_from_slice(&strtab);
    out
}

#[test]
fn demangles_plain_itanium_names() {
    assert_eq!(try_demangle_itanium("_ZL12render_scenev"), Some(String::from("render_scene")));
    assert_eq!(try_demangle_itanium("_Z4mainiPPc"), Some(String::from("main")));
    assert_eq!(try_demangle_itanium("_Z3abc"), Some(String::from("abc")));
}

#[test]
fn demangle_refusals() {
    assert_eq!(try_demangle_itanium("main"), None);
    assert_eq!(try_demangle_itanium("_Z"), None);
    // digits only
    assert_eq!(try_demangle_itanium("_Z12"), None);
    // the name runs past the end
    assert_eq!(try_demangle_itanium("_Z5ab"), None);
    // no length
    assert_eq!(try_demangle_itanium("_Zfoo"), None);
    // not an identifier
    assert_eq!(try_demangle_itanium("_Z3a-bc"), None);
    // empty name
    assert_eq!(try_demangle_itanium("_Z0v"), None);
}

#[test]
fn symbol_map_insert_and_get() {
    let mut m = SymbolMap::new();
    assert_eq!(m.len(), 0);
    m.insert(String::from("a"), 1);
    m.insert(String::from("b"), 2);
    m.insert(String::from("a"), 3);
    assert_eq!(m.len(), 2);
    assert_eq!(m.get("a"), Some(3));
    assert_eq!(m.get("b"), Some(2));
    assert_eq!(m.get("c"), None);
    assert_eq!(m.name_at(0), "a");
    assert_eq!(m.addr_at(1), 2);
    m.insert_if_absent(String::from("b"), 9);
    m.insert_if_absent(String::from("c"), 4);
    assert_eq!(m.get("b"), Some(2));
    assert_eq!(m.get("c"), Some(4));
    assert!(m.contains_key(&String::from("c")));
    assert!(!m.contains_key(&String::from("d")));
}

#[test]
fn elf_symbols_from_bytes() {
    let elf = elf32_with_symbols(&[
        ("render_scene_helper", 0x0804_8000),
        ("_ZL12render_scenev", 0x0804_9000),
        ("zero", 0),
    ]);
    assert!(is_game_binary(&elf));
    let map = build_elf_symbol_map(&elf).expect("an ELF file");
    assert_eq!(map.get("render_scene_helper"), Some(0x0804_8000));
    assert_eq!(map.get("_ZL12render_scenev"), Some(0x0804_9000));
    // the demangled alias
    assert_eq!(map.get("render_scene"), Some(0x0804_9000));
    // a symbol of value 0 is left out
    assert_eq!(map.get("zero"), None);
    assert_eq!(map.len(), 3);
    // no PLT imports without a dynamic section
    assert_eq!(build_got_map(&elf).expect("an ELF file").len(), 0);
}

#[test]
fn process_symbols_bind_functions() {
    let elf = elf32_with_symbols(&[("_ZL4mainv", 0x0805_0000), ("SDL_CreateWindow", 0x0806_0000)]);
    let symbols = ProcessSymbols::load(Some(&elf));
    assert_eq!(elf_symbol_lookup(&symbols, "main"), Some(0x0805_0000));
    assert_eq!(got_entry_lookup(&symbols, "SDL_CreateWindow"), None);
    let mut entry: BoundFn<()> = BoundFn::direct("entry", None);
    // dlsym wins over the table
    entry.bind_symbol(&symbols, "main", Some(0x1234)).unwrap();
    assert_eq!(entry.get_addr(), 0x1234);
    let mut other: BoundFn<()> = BoundFn::direct("other", None);
    other.bind_symbol(&symbols, "main", None).unwrap();
    assert_eq!(other.get_addr(), 0x0805_0000);
    let mut slot: BoundFn<()> = BoundFn::indirect("slot");
    // no GOT entry, no dlsym: the table is the last resort
    slot.bind_got_entry(&symbols, "SDL_CreateWindow", None).unwrap();
    assert_eq!(slot.get_addr(), 0x0806_0000);
    let mut missing: BoundFn<()> = BoundFn::direct("missing", None);
    let e = missing.bind_elf_symbol(&symbols, "nowhere").unwrap_err();
    assert_eq!(e.message(), "Could not find 'missing'");
}

#[test]
fn not_an_elf_file() {
    let bytes = vec![0u8; 64];
    assert!(build_elf_symbol_map(&bytes).is_none());
    assert!(build_got_map(&bytes).is_none());
    assert!(!is_game_binary(&bytes));
    let symbols = ProcessSymbols::load(Some(&bytes));
    assert_eq!(symbols.elf.len(), 0);
    assert_eq!(symbols.got.len(), 0);
    let symbols = ProcessSymbols::load(None);
    assert_eq!(symbols.elf.len(), 0);
}

#[test]
fn game_binary_recognition() {
    let mut elf64 = elf32_with_symbols(&[]);
    elf64[4] = 2;
    assert!(!is_game_binary(&elf64));
    assert!(!is_game_binary(&[0x7F, b'E', b'L', b'F', 1]));
}

#[test]
fn command_line_first_argument() {
    assert_eq!(first_argument(b"/games/GrimFandango\0-fullscreen\0"), Some(b"/games/GrimFandango".to_vec()));
    assert_eq!(first_argument(b"\0"), Some(Vec::new()));
    assert_eq!(first_argument(b"no terminator"), None);
}

#[test]
fn macho_tables_of_other_bytes() {
    let bytes = vec![0u8; 64];
    assert!(build_macho_symbol_map(&bytes, 0).is_none());
    let symbols = MachSymbols::load(Some(&bytes), 0x1000);
    assert_eq!(macho_symbol_lookup(&symbols, "main"), None);
    let symbols = MachSymbols::load(None, 0);
    assert_eq!(symbols.symbols.len(), 0);
    assert_eq!(symbols.stubs.len(), 0);
}

#[test]
fn sdl_binds_in_order_and_stops() {
    let symbols = ProcessSymbols::load(None);
    let mut fns: SdlFns<(), (), (), (), ()> = SdlFns::new();
    let found = vec![Some(0x10), Some(0x20), Some(0x30), Some(0x40), Some(0x50)];
    assert!(bind_static_fns(&mut fns, &symbols, &found).is_ok());
    assert_eq!(fns.set_swap_interval.get_addr(), 0x10);
    assert_eq!(fns.get_current_display_mode.get_addr(), 0x50);

    let mut fns: SdlFns<(), (), (), (), ()> = SdlFns::new();
    let found = vec![Some(0x10), Some(0x20), None, Some(0x40), Some(0x50)];
    let e = bind_static_fns(&mut fns, &symbols, &found).unwrap_err();
    assert_eq!(e.message(), "Could not find 'get_window_wminfo'");
    assert_eq!(fns.create_window.get_addr(), 0x20);
    assert_eq!(fns.get_window_wminfo.get_addr(), 0);
    assert_eq!(fns.get_display_bounds.get_addr(), 0);
}

#[test]
fn macho_symbols_from_bytes() {
    let macho = macho64_with_symbols(&[
        ("_main", 0x1_0000_1000),
        ("__ZL4drawv", 0x1_0000_2000),
        ("_zero", 0),
    ]);
    let map = build_macho_symbol_map(&macho, 0x1000).expect("a Mach-O file");
    // names lose their `_`, keep it as an alias, and are moved by the slide
    assert_eq!(map.get("main"), Some(0x1_0000_2000));
    assert_eq!(map.get("_main"), Some(0x1_0000_2000));
    assert_eq!(map.get("_ZL4drawv"), Some(0x1_0000_3000));
    assert_eq!(map.get("__ZL4drawv"), Some(0x1_0000_3000));
    // the demangled alias
    assert_eq!(map.get("draw"), Some(0x1_0000_3000));
    assert_eq!(map.get("zero"), None);
    assert_eq!(map.len(), 5);
    // no binding information: no pointer slots
    assert_eq!(build_stub_pointer_map(&macho, 0x1000).expect("imports read").len(), 0);
    let symbols = MachSymbols::load(Some(&macho), 0);
    assert_eq!(macho_symbol_lookup(&symbols, "main"), Some(0x1_0000_1000));
    assert_eq!(stub_pointer_lookup(&symbols, "main"), None);
}

/// A 64-bit x86 Mach-O executable with one `__DATA` segment at
/// `0x1_0000_4000`, an `LC_DYLD_INFO_ONLY` whose bind opcodes are `binds`,
/// and an empty `LC_SYMTAB`.
fn macho64_with_binds(binds: &[u8]) -> Vec<u8> {
    let data_off: u32 = 32 + 72 + 48 + 24;
    let mut out = Vec::new();
    push_u32(&mut out, 0xFEED_FACF);
    push_u32(&mut out, 0x0100_0007);
    push_u32(&mut out, 3);
    push_u32(&mut out, 2);
    push_u32(&mut out, 3); // three load commands
    push_u32(&mut out, 72 + 48 + 24);
    push_u32(&mut out, 0);
    push_u32(&mut out, 0);
    // LC_SEGMENT_64 __DATA
    push_u32(&mut out, 0x19);
    push_u32(&mut out, 72);
    let mut name = b"__DATA".to_vec();
    name.resize(16, 0);
    out.extend_from_slice(&name);
    push_u64(&mut out, 0x1_0000_4000);
    push_u64(&mut out, 0x1000);
    push_u64(&mut out, 0);
    push_u64(&mut out, 0);
    push_u32(&mut out, 3);
    push_u32(&mut out, 3);
    push_u32(&mut out, 0);
    push_u32(&mut out, 0);
    // LC_DYLD_INFO_ONLY
    push_u32(&mut out, 0x8000_0022);
    push_u32(&mut out, 48);
    for (off, size) in [(0, 0), (data_off, binds.len() as u32), (0, 0), (0, 0), (0, 0)] {
        push_u32(&mut out, off);
        push_u32(&mut out, size);
    }
    // LC_SYMTAB, no symbols
    push_u32(&mut out, 2);
    push_u32(&mut out, 24);
    push_u32(&mut out, data_off);
    push_u32(&mut out, 0);
    push_u32(&mut out, data_off + binds.len() as u32);
    push_u32(&mut out, 1);
    assert_eq!(out.len(), data_off as usize);
    out.extend_from_slice(binds);
    out.push(0);
    out
}

const GOOD_BINDS: [u8; 16] = [
    0x10, // dylib ordinal 0
    0x40, b'_', b'S', b'D', b'L', b'_', b'I', b'n', b'i', b't', 0, // symbol
    0x70, 0x10, // segment 0, offset 0x10
    0x90, // bind
    0x00, // done
];

#[test]
fn macho_stub_pointers_from_bind_opcodes() {
    let macho = macho64_with_binds(&GOOD_BINDS);
    let map = build_stub_pointer_map(&macho, 0x1000).expect("imports read");
    assert_eq!(map.get("SDL_Init"), Some(0x1_0000_5010));
    assert_eq!(map.get("_SDL_Init"), Some(0x1_0000_5010));
    assert_eq!(map.len(), 2);
    let symbols = MachSymbols::load(Some(&macho), 0);
    assert_eq!(stub_pointer_lookup(&symbols, "SDL_Init"), Some(0x1_0000_4010));
}

#[test]
fn macho_bad_bind_opcodes_are_refused() {
    // a bind into segment 5, which does not exist
    let mut binds = GOOD_BINDS;
    binds[12] = 0x75;
    let macho = macho64_with_binds(&binds);
    assert!(build_stub_pointer_map(&macho, 0).is_none());
    assert!(build_macho_symbol_map(&macho, 0).is_some());
    // a dylib ordinal beyond the dylibs
    let mut binds = GOOD_BINDS;
    binds[0] = 0x13;
    assert!(build_stub_pointer_map(&macho64_with_binds(&binds), 0).is_none());
    // an offset whose tenth LEB128 byte does not fit in 64 bits
    let long = [0x70, 0x80, 0x80, 0x80, 0x80, 0x80, 0x80, 0x80, 0x80, 0x80, 0x02, 0x90];
    assert!(build_stub_pointer_map(&macho64_with_binds(&long), 0).is_none());
    // nine LEB128 bytes are read
    let nine = [0x70, 0x80, 0x80, 0x80, 0x80, 0x80, 0x80, 0x80, 0x80, 0x01, 0x90];
    assert!(build_stub_pointer_map(&macho64_with_binds(&nine), 0).is_some());
    // more repeated binds than the file has bytes
    let many = [0x70, 0x00, 0xC0, 0xFF, 0xFF, 0x03, 0x00];
    assert!(build_stub_pointer_map(&macho64_with_binds(&many), 0).is_none());
}

#[test]
fn bind_checker() {
    let segs = vec![(0u64, 0x1_0000_4000u64)];
    let data = GOOD_BINDS.to_vec();
    assert!(bind_run_check(&data, 0, data.len(), &segs, 1, 8));
    assert!(!bind_run_check(&data, 0, data.len(), &segs, 0, 8));
    assert!(!bind_run_check(&data, 0, data.len(), &vec![], 1, 8));
    // the program stops at the end of its range
    assert!(bind_run_check(&data, 0, 14, &vec![], 1, 8));
    // a name without its NUL is refused
    assert!(!bind_run_check(&[0x40, b'a'], 0, 2, &segs, 1, 8));
    // no LC_DYLD_INFO: nothing to check
    assert!(bind_stream_safe(&data, &vec![], &vec![], 1, true));
    // a repeated bind past the end of the address space
    let times = [0x70, 0x00, 0xC0, 0x02, 0x08];
    assert!(bind_run_check(&times, 0, times.len(), &segs, 1, 8));
    assert!(!bind_run_check(&times, 0, times.len(), &vec![(0, u64::MAX - 8)], 1, 8));
    // the offset wraps at 64 bits: adding 2^64 - 8 and then 8 comes back to 0
    let wrapped = [0x70, 0x00, 0x80, 0xF8, 0xFF, 0xFF, 0xFF, 0xFF, 0xFF, 0xFF, 0xFF, 0xFF, 0x01, 0x80, 0x08, 0x90];
    assert!(bind_run_check(&wrapped, 0, wrapped.len(), &segs, 1, 8));
    // without the second addition the bind's address is past 64 bits
    let past = [0x70, 0x00, 0x80, 0xF8, 0xFF, 0xFF, 0xFF, 0xFF, 0xFF, 0xFF, 0xFF, 0xFF, 0x01, 0x90];
    assert!(!bind_run_check(&past, 0, past.len(), &segs, 1, 8));
    // a ten-byte signed addend is read; an eleventh byte is not
    let addend = [0x60, 0x80, 0x80, 0x80, 0x80, 0x80, 0x80, 0x80, 0x80, 0x80, 0x7F, 0x70, 0x00, 0x90];
    assert!(bind_run_check(&addend, 0, addend.len(), &segs, 1, 8));
    let too_long = [0x60, 0x80, 0x80, 0x80, 0x80, 0x80, 0x80, 0x80, 0x80, 0x80, 0x80, 0x00];
    assert!(!bind_run_check(&too_long, 0, too_long.len(), &segs, 1, 8));
}

#[test]
fn elf_reading_is_safe_on_wide_hosts() {
    // with 64-bit addresses every file can be handed to the ELF parser
    if usize::BITS == 64 {
        assert!(elf_parse_check(&[]));
        assert!(elf_parse_check(&[0x7f, b'E', b'L', b'F', 1, 1]));
    }
}
