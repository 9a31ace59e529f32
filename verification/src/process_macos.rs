//! Symbol resolution for the macOS build: the game executable's Mach-O
//! symbol table and its lazy/non-lazy symbol pointers (the Mach-O
//! counterpart of GOT slots), read with `goblin`. Symbol names lose their
//! leading `_`; the full name is kept as an alias. Addresses are moved
//! by the image's ASLR slide, which the application obtains from dyld.

use vstd::prelude::*;
use goblin::mach::load_command::CommandVariant::{DyldInfo, DyldInfoOnly};
use goblin::mach::Mach;
use crate::macho_bind::{bind_safe, bind_stream_safe};
use crate::process_linux::{RawSymbol, add_demangled, lemma_take_step, raw_view, with_demangled};
use crate::symbol_map::{
    SymbolMap, distinct_names, has_name, insert_absent, insert_entry, lemma_insert_absent_lookup, lemma_insert_lookup,
    lemma_lookup_at, lookup,
};

verus! {

/// The tables of a Mach-O file that the loader reads: its symbols (an
/// entry is `None` where `goblin` could not read it), and what its bind
/// opcodes are read against: the `LC_DYLD_INFO` commands' bind and lazy
/// bind ranges (offset and size of each, in command order), each segment's
/// file offset and address, the number of dylibs, and whether the file is
/// 64-bit.
pub struct MachOTables {
    pub symbols: Vec<Option<RawSymbol>>,
    pub bind_ranges: Vec<(u32, u32, u32, u32)>,
    pub segments: Vec<(u64, u64)>,
    pub libs: usize,
    pub is_64: bool,
}

/// The view of a list of optional raw symbols.
pub open spec fn opt_raw_view(v: Seq<Option<RawSymbol>>) -> Seq<Option<(Option<Seq<char>>, u64)>> {
    v.map_values(
        |s: Option<RawSymbol>|
            match s {
                Some(r) => Some(r@),
                None => None,
            },
    )
}

impl View for MachOTables {
    type V = (Seq<Option<(Option<Seq<char>>, u64)>>, (Seq<(u32, u32, u32, u32)>, Seq<(u64, u64)>, usize, bool));

    open spec fn view(&self) -> Self::V {
        (opt_raw_view(self.symbols@), (self.bind_ranges@, self.segments@, self.libs, self.is_64))
    }
}

/// The tables that `goblin` reads from the bytes of a (single-architecture)
/// Mach-O file; `None` when the bytes are not one.
pub uninterp spec fn macho_tables(data: Seq<u8>) -> Option<(Seq<Option<(Option<Seq<char>>, u64)>>, (Seq<(u32, u32, u32, u32)>, Seq<(u64, u64)>, usize, bool))>;

/// The imports that `goblin` reads from the bind opcodes of a Mach-O file
/// (name and address); `None` when they cannot be read.
pub uninterp spec fn macho_imports(data: Seq<u8>) -> Option<Seq<(Option<Seq<char>>, u64)>>;

/// Whether the Mach-O parser can be run on any bytes: it adds offsets read
/// from load commands to the command's position unchecked, which cannot
/// overflow with 64-bit addresses but can with 32-bit ones, so Mach-O files
/// (the macOS game is a 64-bit process) are read only on 64-bit hosts.
pub open spec fn macho_parse_total() -> bool {
    usize::BITS == 64
}

/// Parse `data` with `goblin::mach::Mach::parse` (the Mach-O parser alone,
/// which refuses other formats by their magic) and, for a single-architecture
/// Mach-O file, list its symbols (name and `n_value`, or `None` for an entry
/// that fails to read), the bind ranges of its `LC_DYLD_INFO` and
/// `LC_DYLD_INFO_ONLY` commands, its segments' `fileoff` and `vmaddr`, its
/// number of dylibs and whether it is 64-bit. The contract claims only that
/// the result is a function of the bytes.
#[verifier::external_body]
fn read_macho_tables(data: &[u8]) -> (r: Option<MachOTables>)
    requires
        macho_parse_total(),
    ensures
        r matches Some(t) ==> macho_tables(data@) == Some(t@),
        r is None ==> macho_tables(data@) is None,
{
    match Mach::parse(data) {
        Ok(Mach::Binary(m)) => Some(MachOTables {
            symbols: m.symbols().map(|s| s.ok().map(|(n, nl)| RawSymbol { name: Some(n.into()), value: nl.n_value })).collect(),
            bind_ranges: m.load_commands.iter().filter_map(|c| match c.command {
                DyldInfo(d) | DyldInfoOnly(d) => Some((d.bind_off, d.bind_size, d.lazy_bind_off, d.lazy_bind_size)),
                _ => None,
            }).collect(),
            segments: m.segments.iter().map(|g| (g.fileoff, g.vmaddr)).collect(),
            libs: m.libs.len(),
            is_64: m.is_64,
        }),
        _ => None,
    }
}

/// `MachO::imports` of the file `data`, parsed with `goblin::mach::Mach::parse`:
/// the name and address of each import, `None` when the binding information
/// cannot be read. Reading it runs the bind opcodes, which index the
/// segment and dylib lists and add offsets unchecked, so it is called only
/// on a file whose bind opcodes `bind_safe` accepts against the file's own
/// layout. The contract claims only that the result is a function of the bytes.
#[verifier::external_body]
fn read_macho_imports(data: &[u8]) -> (r: Option<Vec<RawSymbol>>)
    requires
        macho_parse_total(),
        macho_tables(data@) matches Some(t) && bind_safe(data@, t.1),
    ensures
        r matches Some(v) ==> macho_imports(data@) == Some(raw_view(v@)),
        r is None ==> macho_imports(data@) is None,
{
    match Mach::parse(data) {
        Ok(Mach::Binary(m)) => m.imports().ok().map(|v| v.iter().map(|i| RawSymbol { name: Some(i.name.into()), value: i.address }).collect()),
        _ => None,
    }
}

/// `name` without its leading `_`, if it has one.
pub open spec fn strip_underscore(name: Seq<char>) -> Seq<char> {
    if name.len() > 0 && name[0] == '_' {
        name.skip(1)
    } else {
        name
    }
}

/// The runtime address of a file address: moved by the slide, modulo the
/// address width.
pub open spec fn slid(value: u64, slide: isize) -> usize {
    (value as int + slide as int) as usize
}

/// One named address taken into a Mach-O table: stored under the name
/// without `_` (replacing what that name had), and under the full name too
/// unless that name is already there.
pub open spec fn macho_store(acc: Seq<(Seq<char>, usize)>, name: Seq<char>, addr: usize) -> Seq<(Seq<char>, usize)> {
    let clean = strip_underscore(name);
    let a = insert_entry(acc, clean, addr);
    if name != clean {
        insert_absent(a, name, addr)
    } else {
        a
    }
}

/// A stored Mach-O name is found without its leading `_` at the address
/// stored, and is found under its full name as well.
pub proof fn law_found_with_and_without_underscore(acc: Seq<(Seq<char>, usize)>, name: Seq<char>, addr: usize)
    requires
        distinct_names(acc),
    ensures
        distinct_names(macho_store(acc, name, addr)),
        lookup(macho_store(acc, name, addr), strip_underscore(name)) == Some(addr),
        lookup(macho_store(acc, name, addr), name) is Some,
{
    let clean = strip_underscore(name);
    lemma_insert_lookup(acc, clean, addr, name);
    let a = insert_entry(acc, clean, addr);
    if name != clean {
        lemma_insert_absent_lookup(a, name, addr, clean);
        if has_name(a, name) {
            let j = choose|i: int| 0 <= i < a.len() && a[i].0 == name;
            lemma_lookup_at(a, j);
        }
    }
}

/// One symbol taken into the symbol table: unreadable, unnamed and
/// zero-valued symbols are skipped.
pub open spec fn macho_sym_step(acc: Seq<(Seq<char>, usize)>, sym: Option<(Option<Seq<char>>, u64)>, slide: isize) -> Seq<(Seq<char>, usize)> {
    match sym {
        Some((Some(name), v)) => if v == 0 || name.len() == 0 {
            acc
        } else {
            macho_store(acc, name, slid(v, slide))
        },
        _ => acc,
    }
}

/// One import taken into the pointer table: imports whose slid address is
/// zero, and unnamed ones, are skipped.
pub open spec fn stub_step(acc: Seq<(Seq<char>, usize)>, imp: (Option<Seq<char>>, u64), slide: isize) -> Seq<(Seq<char>, usize)> {
    match imp.0 {
        Some(name) => if slid(imp.1, slide) == 0 || name.len() == 0 {
            acc
        } else {
            macho_store(acc, name, slid(imp.1, slide))
        },
        None => acc,
    }
}

/// `macho_sym_step` over all of `syms`, in order.
pub open spec fn fold_macho_syms(acc: Seq<(Seq<char>, usize)>, syms: Seq<Option<(Option<Seq<char>>, u64)>>, slide: isize) -> Seq<(Seq<char>, usize)>
    decreases syms.len(),
{
    if syms.len() == 0 {
        acc
    } else {
        macho_sym_step(fold_macho_syms(acc, syms.drop_last(), slide), syms.last(), slide)
    }
}

/// `stub_step` over all of `imports`, in order.
pub open spec fn fold_stubs(acc: Seq<(Seq<char>, usize)>, imports: Seq<(Option<Seq<char>>, u64)>, slide: isize) -> Seq<(Seq<char>, usize)>
    decreases imports.len(),
{
    if imports.len() == 0 {
        acc
    } else {
        stub_step(fold_stubs(acc, imports.drop_last(), slide), imports.last(), slide)
    }
}

/// Store `addr` under `name` the Mach-O way.
fn store(map: &mut SymbolMap, name: &String, addr: usize)
    requires
        old(map).wf(),
        name@.len() > 0,
    ensures
        final(map).wf(),
        final(map)@ == macho_store(old(map)@, name@, addr),
{
    let n = name.unicode_len();
    if name.as_str().get_char(0) == '_' {
        let clean = name.as_str().substring_char(1, n).to_owned();
        assert(clean@ =~= strip_underscore(name@));
        map.insert(clean, addr);
        assert(name@ != strip_underscore(name@)) by {
            assert(strip_underscore(name@).len() != name@.len());
        }
        map.insert_if_absent(name.clone(), addr);
    } else {
        map.insert(name.clone(), addr);
    }
}

/// The runtime address for a file address and a slide.
fn slide_addr(value: u64, slide: isize) -> (r: usize)
    ensures
        r == slid(value, slide),
{
    #[verifier::truncate]
    ((value as i128 + slide as i128) as usize)
}

/// The symbol table of Mach-O tables `t` for an image slid by `slide`:
/// names without `_` (and the full names as aliases), then the demangled
/// aliases.
pub fn macho_symbol_map_of(t: &MachOTables, slide: isize) -> (m: SymbolMap)
    ensures
        m.wf(),
        m@ == with_demangled(fold_macho_syms(Seq::empty(), t@.0, slide)),
{
    let mut map = SymbolMap::new();
    let ghost v = opt_raw_view(t.symbols@);
    let mut i: usize = 0;
    while i < t.symbols.len()
        invariant
            i <= t.symbols@.len(),
            v == opt_raw_view(t.symbols@),
            map.wf(),
            map@ == fold_macho_syms(Seq::empty(), v.take(i as int), slide),
        decreases t.symbols.len() - i,
    {
        proof {
            lemma_take_step(v, i as int);
        }
        match &t.symbols[i] {
            Some(sym) => {
                match &sym.name {
                    Some(name) => {
                        if sym.value != 0 && name.unicode_len() > 0 {
                            let addr = slide_addr(sym.value, slide);
                            store(&mut map, name, addr);
                        }
                    },
                    None => {},
                }
            },
            None => {},
        }
        i = i + 1;
    }
    assert(v.take(t.symbols@.len() as int) =~= v);
    add_demangled(&mut map);
    map
}

/// The table of pointer slots of the imports `imports` of an image slid by
/// `slide`.
pub fn stub_pointer_map_of(imports: &Vec<RawSymbol>, slide: isize) -> (m: SymbolMap)
    ensures
        m.wf(),
        m@ == fold_stubs(Seq::empty(), raw_view(imports@), slide),
{
    let mut map = SymbolMap::new();
    let ghost v = raw_view(imports@);
    let mut i: usize = 0;
    while i < imports.len()
        invariant
            i <= imports@.len(),
            v == raw_view(imports@),
            map.wf(),
            map@ == fold_stubs(Seq::empty(), v.take(i as int), slide),
        decreases imports.len() - i,
    {
        proof {
            lemma_take_step(v, i as int);
        }
        let imp = &imports[i];
        match &imp.name {
            Some(name) => {
                let addr = slide_addr(imp.value, slide);
                if addr != 0 && name.unicode_len() > 0 {
                    store(&mut map, name, addr);
                }
            },
            None => {},
        }
        i = i + 1;
    }
    assert(v.take(imports@.len() as int) =~= v);
    map
}

/// Build the symbol table of the Mach-O file `data`, whose image is slid by
/// `slide`. `None` when `data` is not a Mach-O file.
pub fn build_macho_symbol_map(data: &[u8], slide: isize) -> (r: Option<SymbolMap>)
    ensures
        r matches Some(m) ==> (m.wf() && macho_parse_total() && macho_tables(data@) is Some && m@ == with_demangled(
            fold_macho_syms(Seq::empty(), macho_tables(data@).unwrap().0, slide),
        )),
        r is None ==> !macho_parse_total() || macho_tables(data@) is None,
{
    if usize::BITS != 64 {
        return None;
    }
    let tables = read_macho_tables(data)?;
    Some(macho_symbol_map_of(&tables, slide))
}

/// Whether the imports of the Mach-O file `data` are read: it is a Mach-O
/// file, read on a 64-bit host, whose bind opcodes `bind_safe` accepts.
pub open spec fn imports_readable(data: Seq<u8>) -> bool {
    macho_parse_total() && (macho_tables(data) matches Some(t) && bind_safe(data, t.1))
}

/// Build the table of lazy/non-lazy symbol pointer slots of the Mach-O file
/// `data`, slid by `slide`. `None` when `data` is not a Mach-O file, when
/// its bind opcodes are refused by `bind_safe`, or when its imports cannot
/// be read.
pub fn build_stub_pointer_map(data: &[u8], slide: isize) -> (r: Option<SymbolMap>)
    ensures
        r matches Some(m) ==> (m.wf() && imports_readable(data@) && macho_imports(data@) is Some && m@ == fold_stubs(
            Seq::empty(),
            macho_imports(data@).unwrap(),
            slide,
        )),
        r is None ==> !imports_readable(data@) || macho_imports(data@) is None,
{
    if usize::BITS != 64 {
        return None;
    }
    let tables = read_macho_tables(data)?;
    if !bind_stream_safe(data, &tables.bind_ranges, &tables.segments, tables.libs, tables.is_64) {
        return None;
    }
    let imports = read_macho_imports(data)?;
    Some(stub_pointer_map_of(&imports, slide))
}

/// The symbol tables of the game executable that binding consults on macOS.
pub struct MachSymbols {
    /// All symbols, by name without `_`, with aliases.
    pub symbols: SymbolMap,
    /// The pointer slot of each imported function.
    pub stubs: SymbolMap,
}

impl MachSymbols {
    pub open spec fn wf(&self) -> bool {
        self.symbols.wf() && self.stubs.wf()
    }

    /// The tables of the executable whose bytes are `exe`, slid by `slide`;
    /// a table that cannot be read is empty.
    pub fn load(exe: Option<&[u8]>, slide: isize) -> (p: MachSymbols)
        ensures
            p.wf(),
            exe is None ==> p.symbols@ == Seq::<(Seq<char>, usize)>::empty() && p.stubs@ == Seq::<(Seq<char>, usize)>::empty(),
            exe matches Some(d) ==> p.symbols@ == match (if macho_parse_total() { macho_tables(d@) } else { None }) {
                Some(t) => with_demangled(fold_macho_syms(Seq::empty(), t.0, slide)),
                None => Seq::<(Seq<char>, usize)>::empty(),
            },
            exe matches Some(d) ==> p.stubs@ == match (if imports_readable(d@) { macho_imports(d@) } else { None }) {
                Some(imps) => fold_stubs(Seq::empty(), imps, slide),
                None => Seq::<(Seq<char>, usize)>::empty(),
            },
    {
        match exe {
            Some(data) => {
                let symbols = match build_macho_symbol_map(data, slide) {
                    Some(m) => m,
                    None => SymbolMap::new(),
                };
                let stubs = match build_stub_pointer_map(data, slide) {
                    Some(m) => m,
                    None => SymbolMap::new(),
                };
                MachSymbols { symbols, stubs }
            },
            None => MachSymbols { symbols: SymbolMap::new(), stubs: SymbolMap::new() },
        }
    }
}

/// Look up a symbol in the Mach-O symbol table (local symbols included).
pub fn macho_symbol_lookup(symbols: &MachSymbols, name: &str) -> (r: Option<usize>)
    requires
        symbols.wf(),
    ensures
        r == symbols.symbols.spec_get(name@),
{
    symbols.symbols.get(name)
}

/// Look up the lazy/non-lazy pointer slot of an imported function: the
/// address of the slot itself, not of the function.
pub fn stub_pointer_lookup(symbols: &MachSymbols, name: &str) -> (r: Option<usize>)
    requires
        symbols.wf(),
    ensures
        r == symbols.stubs.spec_get(name@),
{
    symbols.stubs.get(name)
}

} // verus!
