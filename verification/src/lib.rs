//! Verified core of GrimMod, a mod loader for Grim Fandango Remastered.
//!
//! The library holds the logic of the loader as plain, verified Rust: the
//! configuration model, the x86 and x86-64 instruction length decoders used to
//! size function prologues, the construction of trampolines and jump patches
//! for inline hooks, the binding and hooking state of game functions, the
//! symbol tables read from the game executable, and the profiling counters.
//! Everything that touches process memory or the operating system lives in
//! the application around it.


pub mod config;
pub mod text;
pub mod x86;
pub mod memory_linux;
pub mod symbol_map;
pub mod process_linux;
pub mod memory_macos;
pub mod elf_check;
pub mod macho_bind;
pub mod process_macos;
pub mod perf;
pub mod grim;
pub mod sdl;
pub mod init;
