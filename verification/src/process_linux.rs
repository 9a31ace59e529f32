//! Symbol resolution for the Linux build: the game executable's ELF symbol
//! tables and its GOT slots, read with `goblin`, and the recognition of the
//! game binary. `dlsym` lookups are made by the application and handed in.

use vstd::prelude::*;
use goblin::elf::Elf;
use crate::elf_check::{elf_parse_check, elf_parse_safe};
use crate::symbol_map::{
    SymbolMap, all_nonzero, distinct_names, has_name, insert_absent, insert_entry, lemma_insert_nonzero, lemma_insert_absent_lookup, lemma_insert_lookup, lookup,
};

verus! {

/// Whether `c` is an ASCII decimal digit.
pub open spec fn is_digit(c: char) -> bool {
    '0' <= c <= '9'
}

/// Whether `c` may occur in a demangled identifier: ASCII letters, digits, `_`.
pub open spec fn is_ident_char(c: char) -> bool {
    ('a' <= c <= 'z') || ('A' <= c <= 'Z') || is_digit(c) || c == '_'
}

/// The number of ASCII digits at the start of `s`.
pub open spec fn digit_prefix_len(s: Seq<char>) -> nat
    decreases s.len(),
{
    if s.len() > 0 && is_digit(s[0]) {
        1 + digit_prefix_len(s.drop_first())
    } else {
        0
    }
}

/// The value of the decimal numeral `s`.
pub open spec fn decimal_value(s: Seq<char>) -> nat
    decreases s.len(),
{
    if s.len() == 0 {
        0
    } else {
        (decimal_value(s.drop_last()) * 10 + (s.last() as int - '0' as int)) as nat
    }
}

/// What follows the Itanium prefix `_ZL` or `_Z` of `m`, if it has one.
pub open spec fn itanium_body(m: Seq<char>) -> Option<Seq<char>> {
    if m.len() >= 3 && m[0] == '_' && m[1] == 'Z' && m[2] == 'L' {
        Some(m.skip(3))
    } else if m.len() >= 2 && m[0] == '_' && m[1] == 'Z' {
        Some(m.skip(2))
    } else {
        None
    }
}

/// The plain name inside a mangled Itanium C++ symbol `_Z<len><name>...` or
/// `_ZL<len><name>...`: the `len` characters after the decimal length, when
/// they exist, are not empty and are all letters, digits or `_`, and the
/// length is followed by something and fits in a `usize`.
pub open spec fn demangle_itanium(m: Seq<char>) -> Option<Seq<char>> {
    match itanium_body(m) {
        Some(rest) => {
            let d = digit_prefix_len(rest);
            let len = decimal_value(rest.take(d as int));
            if d == 0 || d == rest.len() || len > usize::MAX || d + len > rest.len() || len == 0 {
                None
            } else {
                let name = rest.subrange(d as int, (d + len) as int);
                if forall|i: int| 0 <= i < name.len() ==> is_ident_char(#[trigger] name[i]) {
                    Some(name)
                } else {
                    None
                }
            }
        },
        None => None,
    }
}

proof fn lemma_digit_prefix_exact(s: Seq<char>, d: int)
    requires
        0 <= d <= s.len(),
        forall|i: int| 0 <= i < d ==> is_digit(#[trigger] s[i]),
        d < s.len() ==> !is_digit(s[d]),
    ensures
        digit_prefix_len(s) == d,
    decreases s.len(),
{
    if d > 0 {
        assert forall|i: int| 0 <= i < d - 1 implies is_digit(#[trigger] s.drop_first()[i]) by {
            assert(s.drop_first()[i] == s[i + 1]);
        }
        if d < s.len() {
            assert(s.drop_first()[d - 1] == s[d]);
        }
        lemma_digit_prefix_exact(s.drop_first(), d - 1);
    }
}

/// Try to demangle an Itanium ABI C++ symbol name to the plain name it holds.
#[verifier::loop_isolation(false)]
pub fn try_demangle_itanium(mangled: &str) -> (r: Option<String>)
    ensures
        r matches Some(s) ==> demangle_itanium(mangled@) == Some(s@),
        r is None ==> demangle_itanium(mangled@) is None,
{
    let n = mangled.unicode_len();
    // strip the `_ZL` or `_Z` prefix
    let start: usize = if n >= 3 && mangled.get_char(0) == '_' && mangled.get_char(1) == 'Z'
        && mangled.get_char(2) == 'L' {
        3
    } else if n >= 2 && mangled.get_char(0) == '_' && mangled.get_char(1) == 'Z' {
        2
    } else {
        return None;
    };
    let ghost rest = mangled@.skip(start as int);
    assert(itanium_body(mangled@) == Some(rest));
    // the decimal length
    let mut i: usize = start;
    let mut value: usize = 0;
    let mut overflow = false;
    while i < n && '0' <= mangled.get_char(i) && mangled.get_char(i) <= '9'
        invariant
            start <= i <= n,
            n == mangled@.len(),
            rest == mangled@.skip(start as int),
            forall|k: int| start <= k < i ==> is_digit(#[trigger] mangled@[k]),
            !overflow ==> value == decimal_value(rest.take(i - start)),
            overflow ==> decimal_value(rest.take(i - start)) > usize::MAX,
        decreases n - i,
    {
        let c = mangled.get_char(i);
        let digit = (c as u32 - '0' as u32) as usize;
        proof {
            let t = rest.take(i + 1 - start);
            assert(t.drop_last() =~= rest.take(i - start));
            assert(t.last() == c);
            assert(decimal_value(t) == decimal_value(rest.take(i - start)) * 10 + digit);
        }
        if !overflow {
            if value > (usize::MAX - digit) / 10 {
                overflow = true;
            } else {
                value = value * 10 + digit;
            }
        } else {
            proof {
                let t = rest.take(i + 1 - start);
                assert(decimal_value(t) >= decimal_value(rest.take(i - start)) * 10) by (nonlinear_arith)
                    requires
                        decimal_value(t) == decimal_value(rest.take(i - start)) * 10 + digit,
                ;
            }
        }
        i = i + 1;
    }
    let d = i - start;
    proof {
        assert forall|k: int| 0 <= k < d implies is_digit(#[trigger] rest[k]) by {
            assert(rest[k] == mangled@[start + k]);
        }
        if d < rest.len() {
            assert(rest[d as int] == mangled@[i as int]);
        }
        lemma_digit_prefix_exact(rest, d as int);
    }
    if d == 0 || i == n || overflow {
        return None;
    }
    let len = value;
    if len > n - i || len == 0 {
        return None;
    }
    // the name must be made of identifier characters
    let mut k: usize = i;
    while k < i + len
        invariant
            i <= k <= i + len,
            i + len <= n,
            n == mangled@.len(),
            rest == mangled@.skip(start as int),
            i == start + d,
            start <= i,
            forall|j: int| i <= j < k ==> is_ident_char(#[trigger] mangled@[j]),
        decreases i + len - k,
    {
        let c = mangled.get_char(k);
        if !(('a' <= c && c <= 'z') || ('A' <= c && c <= 'Z') || ('0' <= c && c <= '9') || c == '_') {
            proof {
                let name = rest.subrange(d as int, (d + len) as int);
                assert(name[k - i] == mangled@[k as int]);
                assert(!is_ident_char(name[k - i]));
            }
            return None;
        }
        k = k + 1;
    }
    let name = mangled.substring_char(i, i + len);
    proof {
        let spec_name = rest.subrange(d as int, (d + len) as int);
        assert(spec_name =~= mangled@.subrange(i as int, i + len));
        assert forall|j: int| 0 <= j < spec_name.len() implies is_ident_char(#[trigger] spec_name[j]) by {
            assert(spec_name[j] == mangled@[i + j]);
        }
    }
    Some(name.to_owned())
}


/// The view of an optional string.
pub open spec fn opt_str_view(o: Option<String>) -> Option<Seq<char>> {
    match o {
        Some(s) => Some(s@),
        None => None,
    }
}

/// A symbol as an object file's tables give it: its name, when the string
/// table holds one, and its value (an address or a slot offset).
pub struct RawSymbol {
    pub name: Option<String>,
    pub value: u64,
}

impl View for RawSymbol {
    type V = (Option<Seq<char>>, u64);

    open spec fn view(&self) -> (Option<Seq<char>>, u64) {
        (opt_str_view(self.name), self.value)
    }
}

/// The views of a list of raw symbols.
pub open spec fn raw_view(v: Seq<RawSymbol>) -> Seq<(Option<Seq<char>>, u64)> {
    v.map_values(|s: RawSymbol| s@)
}

/// The symbol tables of an ELF file that the loader reads: `.symtab`,
/// `.dynsym`, and for each PLT relocation the name of its dynamic symbol
/// with the address of the GOT slot it fills.
pub struct ElfTables {
    pub syms: Vec<RawSymbol>,
    pub dynsyms: Vec<RawSymbol>,
    pub plt_imports: Vec<RawSymbol>,
}

impl View for ElfTables {
    type V = (Seq<(Option<Seq<char>>, u64)>, Seq<(Option<Seq<char>>, u64)>, Seq<(Option<Seq<char>>, u64)>);

    open spec fn view(&self) -> Self::V {
        (raw_view(self.syms@), raw_view(self.dynsyms@), raw_view(self.plt_imports@))
    }
}

/// The tables that `goblin` reads from the bytes of an ELF file (`None` when
/// the bytes are not an ELF file it can parse).
pub uninterp spec fn elf_tables(data: Seq<u8>) -> Option<(Seq<(Option<Seq<char>>, u64)>, Seq<(Option<Seq<char>>, u64)>, Seq<(Option<Seq<char>>, u64)>)>;

/// Parse `data` with `goblin::elf::Elf::parse` and list its `.symtab` and
/// `.dynsym` entries with their names from the matching string tables, and
/// its PLT relocations with their symbol names and slot offsets. The
/// contract claims only that the result is a function of the bytes. The
/// parser sizes the dynamic symbols from the GNU hash table with sums in
/// the host's address width (`gnu_hash_len` in goblin's `elf/mod.rs`); on a
/// 32-bit host these can overflow on crafted input, so the call is made
/// only on bytes for which `elf_parse_safe` holds.
#[verifier::external_body]
fn read_elf_tables(data: &[u8]) -> (r: Option<ElfTables>)
    requires
        elf_parse_safe(data@),
    ensures
        r matches Some(t) ==> elf_tables(data@) == Some(t@),
        r is None ==> elf_tables(data@) is None,
{
    match Elf::parse(data) {
        Ok(elf) => Some(ElfTables {
            syms: elf.syms.iter().map(|s| RawSymbol { name: elf.strtab.get_at(s.st_name).map(String::from), value: s.st_value }).collect(),
            dynsyms: elf.dynsyms.iter().map(|s| RawSymbol { name: elf.dynstrtab.get_at(s.st_name).map(String::from), value: s.st_value }).collect(),
            plt_imports: elf.pltrelocs.iter().map(|r| RawSymbol { name: elf.dynsyms.get(r.r_sym).and_then(|s| elf.dynstrtab.get_at(s.st_name)).map(String::from), value: r.r_offset }).collect(),
        }),
        Err(_) => None,
    }
}

/// One `.symtab` entry taken into the table: a named symbol with a non-zero
/// value replaces what its name had.
pub open spec fn symtab_step(acc: Seq<(Seq<char>, usize)>, sym: (Option<Seq<char>>, u64)) -> Seq<(Seq<char>, usize)> {
    match sym.0 {
        Some(n) => if sym.1 != 0 && n.len() > 0 {
            insert_entry(acc, n, sym.1 as usize)
        } else {
            acc
        },
        None => acc,
    }
}

/// One `.dynsym` entry taken into the table: a named symbol with a non-zero
/// value is added unless its name is already there.
pub open spec fn dynsym_step(acc: Seq<(Seq<char>, usize)>, sym: (Option<Seq<char>>, u64)) -> Seq<(Seq<char>, usize)> {
    match sym.0 {
        Some(n) => if sym.1 != 0 && n.len() > 0 {
            insert_absent(acc, n, sym.1 as usize)
        } else {
            acc
        },
        None => acc,
    }
}

/// One PLT relocation taken into the GOT table: a named import records its
/// slot address, replacing an earlier one of the same name.
pub open spec fn got_step(acc: Seq<(Seq<char>, usize)>, sym: (Option<Seq<char>>, u64)) -> Seq<(Seq<char>, usize)> {
    match sym.0 {
        Some(n) => if n.len() > 0 {
            insert_entry(acc, n, sym.1 as usize)
        } else {
            acc
        },
        None => acc,
    }
}

/// `symtab_step` over all of `syms`, in order.
pub open spec fn fold_symtab(acc: Seq<(Seq<char>, usize)>, syms: Seq<(Option<Seq<char>>, u64)>) -> Seq<(Seq<char>, usize)>
    decreases syms.len(),
{
    if syms.len() == 0 {
        acc
    } else {
        symtab_step(fold_symtab(acc, syms.drop_last()), syms.last())
    }
}

/// `dynsym_step` over all of `syms`, in order.
pub open spec fn fold_dynsym(acc: Seq<(Seq<char>, usize)>, syms: Seq<(Option<Seq<char>>, u64)>) -> Seq<(Seq<char>, usize)>
    decreases syms.len(),
{
    if syms.len() == 0 {
        acc
    } else {
        dynsym_step(fold_dynsym(acc, syms.drop_last()), syms.last())
    }
}

/// `got_step` over all of `syms`, in order.
pub open spec fn fold_got(acc: Seq<(Seq<char>, usize)>, syms: Seq<(Option<Seq<char>>, u64)>) -> Seq<(Seq<char>, usize)>
    decreases syms.len(),
{
    if syms.len() == 0 {
        acc
    } else {
        got_step(fold_got(acc, syms.drop_last()), syms.last())
    }
}

/// The demangled aliases of `entries` added to `acc`: an entry whose name
/// demangles to a name absent from `base` lends its address to that name,
/// the earliest such entry winning.
pub open spec fn fold_demangled(acc: Seq<(Seq<char>, usize)>, base: Seq<(Seq<char>, usize)>, entries: Seq<(Seq<char>, usize)>) -> Seq<(Seq<char>, usize)>
    decreases entries.len(),
{
    if entries.len() == 0 {
        acc
    } else {
        let prev = fold_demangled(acc, base, entries.drop_last());
        match demangle_itanium(entries.last().0) {
            Some(d) => if !has_name(base, d) {
                insert_absent(prev, d, entries.last().1)
            } else {
                prev
            },
            None => prev,
        }
    }
}

/// The table with the demangled aliases of its own entries added.
pub open spec fn with_demangled(m: Seq<(Seq<char>, usize)>) -> Seq<(Seq<char>, usize)> {
    fold_demangled(m, m, m)
}

/// The symbol table of an ELF file: `.symtab` names first (a later entry
/// replaces an earlier one), then `.dynsym` names not yet present, then the
/// demangled aliases.
pub open spec fn elf_symbol_map(t: (Seq<(Option<Seq<char>>, u64)>, Seq<(Option<Seq<char>>, u64)>, Seq<(Option<Seq<char>>, u64)>)) -> Seq<(Seq<char>, usize)> {
    with_demangled(fold_dynsym(fold_symtab(Seq::empty(), t.0), t.1))
}

/// The GOT table of an ELF file: the slot of each named PLT import.
pub open spec fn got_map(t: (Seq<(Option<Seq<char>>, u64)>, Seq<(Option<Seq<char>>, u64)>, Seq<(Option<Seq<char>>, u64)>)) -> Seq<(Seq<char>, usize)> {
    fold_got(Seq::empty(), t.2)
}

/// A name already present keeps its address when a name is stored only
/// where absent.
proof fn lemma_insert_absent_keeps(s: Seq<(Seq<char>, usize)>, name: Seq<char>, addr: usize, n: Seq<char>)
    requires
        distinct_names(s),
        has_name(s, n),
    ensures
        distinct_names(insert_absent(s, name, addr)),
        has_name(insert_absent(s, name, addr), n),
        lookup(insert_absent(s, name, addr), n) == lookup(s, n),
{
    lemma_insert_absent_lookup(s, name, addr, n);
    let j = choose|i: int| 0 <= i < s.len() && s[i].0 == n;
    assert(insert_absent(s, name, addr)[j].0 == n);
}

proof fn lemma_fold_symtab_distinct(syms: Seq<(Option<Seq<char>>, u64)>)
    ensures
        distinct_names(fold_symtab(Seq::empty(), syms)),
    decreases syms.len(),
{
    if syms.len() > 0 {
        lemma_fold_symtab_distinct(syms.drop_last());
        let prev = fold_symtab(Seq::empty(), syms.drop_last());
        if let Some(n) = syms.last().0 {
            lemma_insert_lookup(prev, n, syms.last().1 as usize, n);
        }
    }
}

proof fn lemma_fold_dynsym_keeps(acc: Seq<(Seq<char>, usize)>, syms: Seq<(Option<Seq<char>>, u64)>, n: Seq<char>)
    requires
        distinct_names(acc),
        has_name(acc, n),
    ensures
        distinct_names(fold_dynsym(acc, syms)),
        has_name(fold_dynsym(acc, syms), n),
        lookup(fold_dynsym(acc, syms), n) == lookup(acc, n),
    decreases syms.len(),
{
    if syms.len() > 0 {
        lemma_fold_dynsym_keeps(acc, syms.drop_last(), n);
        let prev = fold_dynsym(acc, syms.drop_last());
        if let Some(m) = syms.last().0 {
            lemma_insert_absent_keeps(prev, m, syms.last().1 as usize, n);
        }
    }
}

proof fn lemma_fold_demangled_keeps(acc: Seq<(Seq<char>, usize)>, base: Seq<(Seq<char>, usize)>, entries: Seq<(Seq<char>, usize)>, n: Seq<char>)
    requires
        distinct_names(acc),
        has_name(acc, n),
    ensures
        distinct_names(fold_demangled(acc, base, entries)),
        has_name(fold_demangled(acc, base, entries), n),
        lookup(fold_demangled(acc, base, entries), n) == lookup(acc, n),
    decreases entries.len(),
{
    if entries.len() > 0 {
        lemma_fold_demangled_keeps(acc, base, entries.drop_last(), n);
        let prev = fold_demangled(acc, base, entries.drop_last());
        if let Some(d) = demangle_itanium(entries.last().0) {
            lemma_insert_absent_keeps(prev, d, entries.last().1, n);
        }
    }
}

/// The `.symtab` wins: a name that the `.symtab` entries give an address
/// keeps that address in the executable's symbol table, whatever the
/// `.dynsym` entries and the demangled aliases hold.
pub proof fn law_symtab_wins(
    t: (Seq<(Option<Seq<char>>, u64)>, Seq<(Option<Seq<char>>, u64)>, Seq<(Option<Seq<char>>, u64)>),
    n: Seq<char>,
)
    requires
        lookup(fold_symtab(Seq::empty(), t.0), n) is Some,
    ensures
        lookup(elf_symbol_map(t), n) == lookup(fold_symtab(Seq::empty(), t.0), n),
{
    let s = fold_symtab(Seq::empty(), t.0);
    lemma_fold_symtab_distinct(t.0);
    lemma_fold_dynsym_keeps(s, t.1, n);
    let d = fold_dynsym(s, t.1);
    lemma_fold_demangled_keeps(d, d, d, n);
}

/// Whether every value among `syms` fits in an address.
pub open spec fn values_fit(syms: Seq<(Option<Seq<char>>, u64)>) -> bool {
    forall|i: int| 0 <= i < syms.len() ==> #[trigger] syms[i].1 <= usize::MAX
}

proof fn lemma_fold_symtab_nonzero(acc: Seq<(Seq<char>, usize)>, syms: Seq<(Option<Seq<char>>, u64)>)
    requires
        all_nonzero(acc),
        values_fit(syms),
    ensures
        all_nonzero(fold_symtab(acc, syms)),
    decreases syms.len(),
{
    if syms.len() > 0 {
        assert(values_fit(syms.drop_last()));
        lemma_fold_symtab_nonzero(acc, syms.drop_last());
        let prev = fold_symtab(acc, syms.drop_last());
        let sym = syms.last();
        assert(sym.1 <= usize::MAX);
        if let Some(n) = sym.0 {
            if sym.1 != 0 {
                lemma_insert_nonzero(prev, n, sym.1 as usize);
            }
        }
    }
}

proof fn lemma_fold_dynsym_nonzero(acc: Seq<(Seq<char>, usize)>, syms: Seq<(Option<Seq<char>>, u64)>)
    requires
        all_nonzero(acc),
        values_fit(syms),
    ensures
        all_nonzero(fold_dynsym(acc, syms)),
    decreases syms.len(),
{
    if syms.len() > 0 {
        assert(values_fit(syms.drop_last()));
        lemma_fold_dynsym_nonzero(acc, syms.drop_last());
        let prev = fold_dynsym(acc, syms.drop_last());
        let sym = syms.last();
        assert(sym.1 <= usize::MAX);
        if let Some(n) = sym.0 {
            if sym.1 != 0 {
                lemma_insert_nonzero(prev, n, sym.1 as usize);
            }
        }
    }
}

proof fn lemma_fold_demangled_nonzero(acc: Seq<(Seq<char>, usize)>, base: Seq<(Seq<char>, usize)>, entries: Seq<(Seq<char>, usize)>)
    requires
        all_nonzero(acc),
        all_nonzero(entries),
    ensures
        all_nonzero(fold_demangled(acc, base, entries)),
    decreases entries.len(),
{
    if entries.len() > 0 {
        assert(all_nonzero(entries.drop_last()));
        lemma_fold_demangled_nonzero(acc, base, entries.drop_last());
        let prev = fold_demangled(acc, base, entries.drop_last());
        assert(entries.last().1 != 0);
        if let Some(d) = demangle_itanium(entries.last().0) {
            lemma_insert_nonzero(prev, d, entries.last().1);
        }
    }
}

/// No name in the executable's symbol table has address 0: a symbol of
/// value 0 (an undefined import) gives no entry, and a demangled alias takes
/// the address of an entry. (Values that do not fit in an address are left
/// out: cut to the address width, such a value can become 0.)
pub proof fn law_elf_symbols_nonzero(
    t: (Seq<(Option<Seq<char>>, u64)>, Seq<(Option<Seq<char>>, u64)>, Seq<(Option<Seq<char>>, u64)>),
    n: Seq<char>,
)
    requires
        values_fit(t.0),
        values_fit(t.1),
    ensures
        lookup(elf_symbol_map(t), n) matches Some(a) ==> a != 0,
{
    let e: Seq<(Seq<char>, usize)> = Seq::empty();
    lemma_fold_symtab_nonzero(e, t.0);
    let s = fold_symtab(e, t.0);
    lemma_fold_dynsym_nonzero(s, t.1);
    let d = fold_dynsym(s, t.1);
    lemma_fold_demangled_nonzero(d, d, d);
    let m = elf_symbol_map(t);
    if has_name(m, n) {
        let k = choose|i: int| 0 <= i < m.len() && m[i].0 == n;
        assert(m[k].1 != 0);
    }
}

pub(crate) proof fn lemma_take_step<T>(s: Seq<T>, i: int)
    requires
        0 <= i < s.len(),
    ensures
        s.take(i + 1).drop_last() == s.take(i),
        s.take(i + 1).last() == s[i],
        s.take(i + 1).len() == i + 1,
{
    assert(s.take(i + 1).drop_last() =~= s.take(i));
}

/// Take the `.symtab` entries into the table.
fn add_symtab(map: &mut SymbolMap, syms: &Vec<RawSymbol>)
    requires
        old(map).wf(),
    ensures
        final(map).wf(),
        final(map)@ == fold_symtab(old(map)@, raw_view(syms@)),
{
    let ghost init = map@;
    let ghost v = raw_view(syms@);
    let mut i: usize = 0;
    while i < syms.len()
        invariant
            i <= syms@.len(),
            v == raw_view(syms@),
            map.wf(),
            map@ == fold_symtab(init, v.take(i as int)),
        decreases syms.len() - i,
    {
        proof {
            lemma_take_step(v, i as int);
        }
        let sym = &syms[i];
        if sym.value != 0 {
            match &sym.name {
                Some(name) => {
                    if name.unicode_len() > 0 {
                        map.insert(name.clone(), sym.value as usize);
                    }
                },
                None => {},
            }
        }
        i = i + 1;
    }
    assert(v.take(syms@.len() as int) =~= v);
}

/// Take the `.dynsym` entries into the table.
fn add_dynsym(map: &mut SymbolMap, syms: &Vec<RawSymbol>)
    requires
        old(map).wf(),
    ensures
        final(map).wf(),
        final(map)@ == fold_dynsym(old(map)@, raw_view(syms@)),
{
    let ghost init = map@;
    let ghost v = raw_view(syms@);
    let mut i: usize = 0;
    while i < syms.len()
        invariant
            i <= syms@.len(),
            v == raw_view(syms@),
            map.wf(),
            map@ == fold_dynsym(init, v.take(i as int)),
        decreases syms.len() - i,
    {
        proof {
            lemma_take_step(v, i as int);
        }
        let sym = &syms[i];
        if sym.value != 0 {
            match &sym.name {
                Some(name) => {
                    if name.unicode_len() > 0 {
                        map.insert_if_absent(name.clone(), sym.value as usize);
                    }
                },
                None => {},
            }
        }
        i = i + 1;
    }
    assert(v.take(syms@.len() as int) =~= v);
}

/// Add the demangled aliases of the table's own entries.
pub(crate) fn add_demangled(map: &mut SymbolMap)
    requires
        old(map).wf(),
    ensures
        final(map).wf(),
        final(map)@ == with_demangled(old(map)@),
{
    let ghost base = map@;
    let mut i: usize = 0;
    let n = map.len();
    // first collect, against the table as it was, then add
    let mut added = SymbolMap::new();
    proof {
        assert(base.take(0) =~= Seq::<(Seq<char>, usize)>::empty());
    }
    while i < n
        invariant
            i <= n,
            n == base.len(),
            map@ == base,
            map.wf(),
            added.wf(),
            fold_demangled(base, base, base.take(i as int)) == base + added@,
            forall|j: int| 0 <= j < added@.len() ==> !has_name(base, #[trigger] added@[j].0),
        decreases n - i,
    {
        proof {
            lemma_take_step(base, i as int);
        }
        let name = map.name_at(i);
        let addr = map.addr_at(i);
        match try_demangle_itanium(name.as_str()) {
            Some(d) => {
                if !map.contains_key(&d) {
                    let ghost before = added@;
                    let ghost dv = d@;
                    proof {
                        assert(has_name(base + before, dv) == has_name(before, dv)) by {
                            if has_name(base + before, dv) {
                                let k = choose|k: int| 0 <= k < (base + before).len() && (base + before)[k].0 == dv;
                                if k < base.len() {
                                    assert(base[k].0 == dv);
                                } else {
                                    assert(before[k - base.len()].0 == dv);
                                }
                            }
                            if has_name(before, dv) {
                                let k = choose|k: int| 0 <= k < before.len() && before[k].0 == dv;
                                assert((base + before)[k + base.len()].0 == dv);
                            }
                        }
                    }
                    added.insert_if_absent(d, addr);
                    proof {
                        if !has_name(before, dv) {
                            assert(base + added@ =~= (base + before).push((dv, addr)));
                        }
                        assert forall|j: int| 0 <= j < added@.len() implies !has_name(base, #[trigger] added@[j].0) by {
                            if j < before.len() {
                                assert(added@[j] == before[j]);
                            }
                        }
                    }
                }
            },
            None => {},
        }
        i = i + 1;
    }
    proof {
        assert(base.take(n as int) =~= base);
    }
    let mut k: usize = 0;
    let ghost add_v = added@;
    while k < added.len()
        invariant
            k <= add_v.len(),
            add_v == added@,
            added.wf(),
            map.wf(),
            map@ == base + add_v.take(k as int),
            forall|j: int| 0 <= j < add_v.len() ==> !has_name(base, #[trigger] add_v[j].0),
        decreases add_v.len() - k,
    {
        let ghost before = map@;
        let ghost nk = add_v[k as int].0;
        proof {
            assert(!has_name(before, nk)) by {
                if has_name(before, nk) {
                    let j = choose|j: int| 0 <= j < before.len() && before[j].0 == nk;
                    if j < base.len() {
                        assert(base[j].0 == nk);
                        assert(has_name(base, nk));
                    } else {
                        assert(add_v[j - base.len()].0 == nk);
                        assert(add_v[j - base.len()].0 == add_v[k as int].0);
                    }
                }
            }
        }
        map.insert_if_absent(added.name_at(k).clone(), added.addr_at(k));
        proof {
            assert(map@ =~= base + add_v.take(k + 1));
        }
        k = k + 1;
    }
    proof {
        assert(add_v.take(add_v.len() as int) =~= add_v);
    }
}

/// The symbol table of ELF tables `t`: `.symtab`, then `.dynsym` entries not
/// yet present, then demangled aliases.
pub fn elf_symbol_map_of(t: &ElfTables) -> (m: SymbolMap)
    ensures
        m.wf(),
        m@ == elf_symbol_map(t@),
{
    let mut map = SymbolMap::new();
    add_symtab(&mut map, &t.syms);
    add_dynsym(&mut map, &t.dynsyms);
    add_demangled(&mut map);
    map
}

/// The GOT table of ELF tables `t`: the slot address of each named PLT import.
pub fn got_map_of(t: &ElfTables) -> (m: SymbolMap)
    ensures
        m.wf(),
        m@ == got_map(t@),
{
    let mut map = SymbolMap::new();
    let ghost v = raw_view(t.plt_imports@);
    let mut i: usize = 0;
    while i < t.plt_imports.len()
        invariant
            i <= t.plt_imports@.len(),
            v == raw_view(t.plt_imports@),
            map.wf(),
            map@ == fold_got(Seq::empty(), v.take(i as int)),
        decreases t.plt_imports.len() - i,
    {
        proof {
            lemma_take_step(v, i as int);
        }
        let sym = &t.plt_imports[i];
        match &sym.name {
            Some(name) => {
                if name.unicode_len() > 0 {
                    map.insert(name.clone(), sym.value as usize);
                }
            },
            None => {},
        }
        i = i + 1;
    }
    assert(v.take(t.plt_imports@.len() as int) =~= v);
    map
}

/// Build the symbol table of the ELF file `data`. `None` when `data` is not
/// an ELF file the parser reads, or when the parser cannot read it safely on
/// this host (`elf_parse_safe`).
pub fn build_elf_symbol_map(data: &[u8]) -> (r: Option<SymbolMap>)
    ensures
        r matches Some(m) ==> (m.wf() && elf_parse_safe(data@) && elf_tables(data@) is Some && m@ == elf_symbol_map(
            elf_tables(data@).unwrap(),
        )),
        r is None ==> !elf_parse_safe(data@) || elf_tables(data@) is None,
{
    if !elf_parse_check(data) {
        return None;
    }
    let tables = read_elf_tables(data)?;
    Some(elf_symbol_map_of(&tables))
}

/// Build the GOT table of the ELF file `data`. `None` when `data` is not an
/// ELF file the parser reads, or when the parser cannot read it safely on
/// this host (`elf_parse_safe`).
pub fn build_got_map(data: &[u8]) -> (r: Option<SymbolMap>)
    ensures
        r matches Some(m) ==> (m.wf() && elf_parse_safe(data@) && elf_tables(data@) is Some && m@ == got_map(
            elf_tables(data@).unwrap(),
        )),
        r is None ==> !elf_parse_safe(data@) || elf_tables(data@) is None,
{
    if !elf_parse_check(data) {
        return None;
    }
    let tables = read_elf_tables(data)?;
    Some(got_map_of(&tables))
}

/// The symbol tables of the game executable that binding consults.
pub struct ProcessSymbols {
    /// Local and global symbols with their demangled aliases.
    pub elf: SymbolMap,
    /// The GOT slot of each imported function.
    pub got: SymbolMap,
}

impl ProcessSymbols {
    pub open spec fn wf(&self) -> bool {
        self.elf.wf() && self.got.wf()
    }

    /// The tables of the executable whose bytes are `exe`; a table that cannot
    /// be read (no file, not an ELF file, or one the parser cannot read safely
    /// on this host) is empty.
    pub fn load(exe: Option<&[u8]>) -> (p: ProcessSymbols)
        ensures
            p.wf(),
            p.elf@ == match exe {
                Some(d) => match (if elf_parse_safe(d@) { elf_tables(d@) } else { None }) {
                    Some(t) => elf_symbol_map(t),
                    None => Seq::empty(),
                },
                None => Seq::empty(),
            },
            p.got@ == match exe {
                Some(d) => match (if elf_parse_safe(d@) { elf_tables(d@) } else { None }) {
                    Some(t) => got_map(t),
                    None => Seq::empty(),
                },
                None => Seq::empty(),
            },
    {
        match exe {
            Some(data) => {
                let elf = match build_elf_symbol_map(data) {
                    Some(m) => m,
                    None => SymbolMap::new(),
                };
                let got = match build_got_map(data) {
                    Some(m) => m,
                    None => SymbolMap::new(),
                };
                ProcessSymbols { elf, got }
            },
            None => ProcessSymbols { elf: SymbolMap::new(), got: SymbolMap::new() },
        }
    }
}

/// Look up a symbol in the ELF symbol table (local symbols included).
pub fn elf_symbol_lookup(symbols: &ProcessSymbols, name: &str) -> (r: Option<usize>)
    requires
        symbols.wf(),
    ensures
        r == symbols.elf.spec_get(name@),
{
    symbols.elf.get(name)
}

/// Look up the GOT slot of an imported function: the address of the slot
/// itself, not of the function it points to.
pub fn got_entry_lookup(symbols: &ProcessSymbols, name: &str) -> (r: Option<usize>)
    requires
        symbols.wf(),
    ensures
        r == symbols.got.spec_get(name@),
{
    symbols.got.get(name)
}

/// Whether `data` looks like a 32-bit ELF file: longer than 18 bytes, the ELF
/// magic (`7F "ELF"`), and class 1.
pub open spec fn is_elf32(data: Seq<u8>) -> bool {
    &&& data.len() > 18
    &&& data[0] == 0x7f && data[1] == 0x45 && data[2] == 0x4c && data[3] == 0x46
    &&& data[4] == 1
}

/// Recognize the game binary (a 32-bit ELF file) among the candidates for the
/// executable path.
pub fn is_game_binary(data: &[u8]) -> (b: bool)
    ensures
        b == is_elf32(data@),
{
    data.len() > 18 && data[0] == 0x7f && data[1] == 0x45 && data[2] == 0x4c && data[3] == 0x46
        && data[4] == 1
}

/// The first argument of a NUL-separated command line (as in
/// `/proc/self/cmdline`): the bytes before the first NUL, or `None` when
/// there is no NUL.
pub fn first_argument(cmdline: &[u8]) -> (r: Option<Vec<u8>>)
    ensures
        r matches Some(a) ==> {
            &&& a@.len() < cmdline@.len()
            &&& a@ == cmdline@.take(a@.len() as int)
            &&& cmdline@[a@.len() as int] == 0
            &&& forall|i: int| 0 <= i < a@.len() ==> a@[i] != 0
        },
        r is None ==> forall|i: int| 0 <= i < cmdline@.len() ==> cmdline@[i] != 0,
{
    let mut out: Vec<u8> = Vec::new();
    let mut i: usize = 0;
    while i < cmdline.len()
        invariant
            i <= cmdline@.len(),
            out@ == cmdline@.take(i as int),
            forall|k: int| 0 <= k < i ==> cmdline@[k] != 0,
        decreases cmdline.len() - i,
    {
        if cmdline[i] == 0 {
            return Some(out);
        }
        out.push(cmdline[i]);
        i = i + 1;
        assert(out@ =~= cmdline@.take(i as int));
    }
    None
}

} // verus!
