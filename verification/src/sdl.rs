//! The SDL functions the loader calls or hooks. On Linux they are imported
//! by the game, so they are bound to their GOT slots.

use vstd::prelude::*;
use crate::memory_linux::{BindError, BoundFn, BoundFnModel, after_bind, bind_outcome, first_found};
use crate::process_linux::ProcessSymbols;

verus! {

/// `SDL_WINDOW_ALLOW_HIGHDPI`.
pub const WINDOW_ALLOW_HIGHDPI: u32 = 0x00002000;

/// The number of SDL functions bound.
pub const SDL_FN_COUNT: usize = 5;

/// The SDL symbol of the `i`-th function, in binding order: swap interval,
/// window creation, window manager info, display bounds, display mode.
pub open spec fn sdl_symbol_name(i: int) -> Seq<char> {
    if i == 0 {
        "SDL_GL_SetSwapInterval"@
    } else if i == 1 {
        "SDL_CreateWindow"@
    } else if i == 2 {
        "SDL_GetWindowWMInfo"@
    } else if i == 3 {
        "SDL_GetDisplayBounds"@
    } else {
        "SDL_GetCurrentDisplayMode"@
    }
}

/// The SDL symbol of the `i`-th function.
pub fn sdl_symbol(i: usize) -> (s: &'static str)
    requires
        i < SDL_FN_COUNT,
    ensures
        s@ == sdl_symbol_name(i as int),
{
    if i == 0 {
        "SDL_GL_SetSwapInterval"
    } else if i == 1 {
        "SDL_CreateWindow"
    } else if i == 2 {
        "SDL_GetWindowWMInfo"
    } else if i == 3 {
        "SDL_GetDisplayBounds"
    } else {
        "SDL_GetCurrentDisplayMode"
    }
}

/// The SDL functions; the type parameters are their function types.
pub struct SdlFns<A, B, C, D, E> {
    pub set_swap_interval: BoundFn<A>,
    pub create_window: BoundFn<B>,
    pub get_window_wminfo: BoundFn<C>,
    pub get_display_bounds: BoundFn<D>,
    pub get_current_display_mode: BoundFn<E>,
}

/// The models of the five functions, in binding order.
pub open spec fn sdl_models<A, B, C, D, E>(f: SdlFns<A, B, C, D, E>) -> Seq<BoundFnModel> {
    seq![f.set_swap_interval@, f.create_window@, f.get_window_wminfo@, f.get_display_bounds@, f.get_current_display_mode@]
}

/// The position of the first function, from `j` on, whose binding fails:
/// nothing was found for it, or it is bound already; `old.len()` if none.
pub open spec fn first_failure(old: Seq<BoundFnModel>, found: Seq<Option<usize>>, j: int) -> int
    decreases old.len() - j,
{
    if j >= old.len() || j < 0 {
        old.len() as int
    } else if found[j] is None || old[j].addr != 0 {
        j
    } else {
        first_failure(old, found, j + 1)
    }
}

/// Binding in order, stopping at the first failure: the functions before it
/// are bound to what was found for them, the failing one reports as
/// `bind_outcome` says and is unchanged, the later ones are untouched.
pub open spec fn binds_in_order(old: Seq<BoundFnModel>, new: Seq<BoundFnModel>, found: Seq<Option<usize>>, r: Result<(), BindError>) -> bool {
    let k = first_failure(old, found, 0);
    &&& new.len() == old.len()
    &&& forall|j: int| 0 <= j < k ==> #[trigger] new[j] == after_bind(old[j], found[j]->Some_0)
    &&& forall|j: int| k < j < old.len() ==> #[trigger] new[j] == old[j]
    &&& if k == old.len() {
        r is Ok
    } else {
        r is Err && bind_outcome(old[k], new[k], found[k], r)
    }
}

impl<A, B, C, D, E> SdlFns<A, B, C, D, E> {
    pub open spec fn wf(&self) -> bool {
        &&& self.set_swap_interval.wf()
        &&& self.create_window.wf()
        &&& self.get_window_wminfo.wf()
        &&& self.get_display_bounds.wf()
        &&& self.get_current_display_mode.wf()
    }

    /// The five functions, unbound, hooked through their slots.
    pub fn new() -> (f: Self)
        ensures
            f.wf(),
            forall|i: int| 0 <= i < 5 ==> #[trigger] sdl_models(f)[i].addr == 0 && !sdl_models(f)[i].direct && sdl_models(f)[i].hook is None,
    {
        SdlFns {
            set_swap_interval: BoundFn::indirect("set_swap_interval"),
            create_window: BoundFn::indirect("create_window"),
            get_window_wminfo: BoundFn::indirect("get_window_wminfo"),
            get_display_bounds: BoundFn::indirect("get_display_bounds"),
            get_current_display_mode: BoundFn::indirect("get_current_display_mode"),
        }
    }
}

/// What binding `sdl_symbol(k)` finds: its GOT slot, else what `dlsym`
/// found (`dlsym[k]`), else its ELF symbol.
pub open spec fn sdl_found(symbols: ProcessSymbols, dlsym: Seq<Option<usize>>) -> Seq<Option<usize>> {
    Seq::new(
        5,
        |k: int|
            first_found(
                symbols.got.spec_get(sdl_symbol_name(k)),
                dlsym[k],
                symbols.elf.spec_get(sdl_symbol_name(k)),
            ),
    )
}

/// Bind the SDL functions to their GOT slots (falling back on `dlsym`, whose
/// result for `sdl_symbol(k)` is `dlsym[k]`, and on the ELF symbol table), in
/// order, stopping at the first that fails.
pub fn bind_static_fns<A, B, C, D, E>(fns: &mut SdlFns<A, B, C, D, E>, symbols: &ProcessSymbols, dlsym: &Vec<Option<usize>>) -> (r: Result<(), BindError>)
    requires
        old(fns).wf(),
        symbols.wf(),
        dlsym@.len() == SDL_FN_COUNT,
    ensures
        final(fns).wf(),
        binds_in_order(sdl_models(*old(fns)), sdl_models(*final(fns)), sdl_found(*symbols, dlsym@), r),
{
    let ghost old_m = sdl_models(*fns);
    let ghost found = sdl_found(*symbols, dlsym@);
    proof {
        reveal_with_fuel(first_failure, 6);
    }
    let r0 = fns.set_swap_interval.bind_got_entry(symbols, sdl_symbol(0), dlsym[0]);
    match r0 {
        Ok(()) => {},
        Err(e) => {
            assert(binds_in_order(old_m, sdl_models(*fns), found, Err::<(), BindError>(e))) by {
                assert(forall|j: int| 0 < j < 5 ==> #[trigger] sdl_models(*fns)[j] == old_m[j]);
            }
            return Err(e);
        },
    }
    let r1 = fns.create_window.bind_got_entry(symbols, sdl_symbol(1), dlsym[1]);
    match r1 {
        Ok(()) => {},
        Err(e) => {
            assert(binds_in_order(old_m, sdl_models(*fns), found, Err::<(), BindError>(e))) by {
                assert(forall|j: int| 1 < j < 5 ==> #[trigger] sdl_models(*fns)[j] == old_m[j]);
            }
            return Err(e);
        },
    }
    let r2 = fns.get_window_wminfo.bind_got_entry(symbols, sdl_symbol(2), dlsym[2]);
    match r2 {
        Ok(()) => {},
        Err(e) => {
            assert(binds_in_order(old_m, sdl_models(*fns), found, Err::<(), BindError>(e))) by {
                assert(forall|j: int| 2 < j < 5 ==> #[trigger] sdl_models(*fns)[j] == old_m[j]);
            }
            return Err(e);
        },
    }
    let r3 = fns.get_display_bounds.bind_got_entry(symbols, sdl_symbol(3), dlsym[3]);
    match r3 {
        Ok(()) => {},
        Err(e) => {
            assert(binds_in_order(old_m, sdl_models(*fns), found, Err::<(), BindError>(e))) by {
                assert(forall|j: int| 3 < j < 5 ==> #[trigger] sdl_models(*fns)[j] == old_m[j]);
            }
            return Err(e);
        },
    }
    let r4 = fns.get_current_display_mode.bind_got_entry(symbols, sdl_symbol(4), dlsym[4]);
    match r4 {
        Ok(()) => {},
        Err(e) => {
            assert(binds_in_order(old_m, sdl_models(*fns), found, Err::<(), BindError>(e)));
            return Err(e);
        },
    }
    proof {
        reveal_with_fuel(first_failure, 6);
    }
    Ok(())
}

} // verus!
