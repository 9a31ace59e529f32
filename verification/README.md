# grimmod

A mod loader for Grim Fandango Remastered, with its logic verified by Verus.

- `src/` is the verified library: the configuration model, the x86 and
  x86-64 instruction length decoders that size function prologues, the
  trampolines and jump patches of inline hooks, the binding and hooking state
  of game functions, the symbol tables of the game executable (ELF and
  Mach-O, parsed with `goblin`), the hook plan a configuration calls for, and
  the profiling counters and reports. Before `goblin` reads a file,
  `elf_check` (on 32-bit hosts, such as the Linux game's process) and
  `macho_bind` (for the Mach-O bind opcodes) check on the bytes that the
  parser's arithmetic and indexing cannot fail on them.
- `app/` is the shared library the game loads: it reads `grimmod.toml`,
  looks symbols up with `dlsym`, reads the executable, changes page
  protection, allocates trampolines, performs the writes the library
  computes, and logs.
- `tests/` runs the library on concrete inputs.
