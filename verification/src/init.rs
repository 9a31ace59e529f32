//! Which hooks the loader installs, as the configuration decides.
//!
//! Each function gives, in order, the functions to hook; the application
//! hooks them one by one with their replacements and stops at the first
//! failure.

use vstd::prelude::*;
use crate::config::Config;
use crate::memory_linux::{
    BindError, HookError, UnhookError, bind_error_text, hook_error_text, unhook_error_text,
};

verus! {

/// A function of the game, of OpenGL or of SDL that the loader hooks.
#[derive(Clone, Copy, Debug, PartialEq, Eq, Structural)]
pub enum HookTarget {
    /// Renderer initialization, wrapped to finish the graphics setup.
    InitRenderers,
    RenderScene,
    /// The LAB file functions, overloaded to load modded files.
    OpenFile,
    CloseFile,
    ReadFile,
    /// The image pipeline, upgraded for high-quality assets.
    OpenBmImage,
    ManageResource,
    CopyImage,
    DecompressImage,
    BindImageSurface,
    SurfaceUpload,
    SetupDraw,
    DeleteTextures,
    /// Drawing of video frames, for the video cutouts.
    DrawIndexedPrimitives,
    /// Forced vertical sync.
    SetSwapInterval,
    /// The high-DPI fix.
    CreateWindow,
    GetDisplayBounds,
    GetCurrentDisplayMode,
}

/// The hooks that are always installed.
pub open spec fn always_on_spec() -> Seq<HookTarget> {
    seq![HookTarget::InitRenderers, HookTarget::RenderScene]
}

/// The hooks that load modded files, when mods are on.
pub open spec fn mods_spec(c: Config) -> Seq<HookTarget> {
    if c.mods {
        seq![HookTarget::OpenFile, HookTarget::CloseFile, HookTarget::ReadFile]
    } else {
        seq![]
    }
}

/// The hooks of the high-quality asset pipeline, when mods and
/// high-quality assets are on; video cutouts add the draw hook.
pub open spec fn hq_assets_spec(c: Config) -> Seq<HookTarget> {
    if !c.mods || !c.renderer.hq_assets {
        seq![]
    } else {
        seq![
            HookTarget::OpenBmImage,
            HookTarget::ManageResource,
            HookTarget::CopyImage,
            HookTarget::DecompressImage,
            HookTarget::BindImageSurface,
            HookTarget::SurfaceUpload,
            HookTarget::SetupDraw,
            HookTarget::DeleteTextures,
        ] + if c.renderer.video_cutouts {
            seq![HookTarget::DrawIndexedPrimitives]
        } else {
            seq![]
        }
    }
}

/// The vertical sync hook, when vsync is on.
pub open spec fn vsync_spec(c: Config) -> Seq<HookTarget> {
    if c.display.vsync {
        seq![HookTarget::SetSwapInterval]
    } else {
        seq![]
    }
}

/// The high-DPI hooks, when the fix is on.
pub open spec fn hdpi_fix_spec(c: Config) -> Seq<HookTarget> {
    if c.display.hdpi_fix {
        seq![HookTarget::CreateWindow, HookTarget::GetDisplayBounds, HookTarget::GetCurrentDisplayMode]
    } else {
        seq![]
    }
}

/// All the hooks of the Linux and macOS builds, in installation order.
pub open spec fn init_spec(c: Config) -> Seq<HookTarget> {
    always_on_spec() + mods_spec(c) + hq_assets_spec(c) + vsync_spec(c)
}

/// Whatever the configuration, the always-on hooks are installed, and first.
pub proof fn law_always_on_first(c: Config)
    ensures
        init_spec(c).take(2) == always_on_spec(),
{
    assert(init_spec(c).take(2) =~= always_on_spec());
}

/// With mods off, no file and no asset hook is installed, whatever the
/// renderer settings: only the always-on hooks and the vsync hook remain.
pub proof fn law_mods_off_leaves_core(c: Config)
    requires
        !c.mods,
    ensures
        init_spec(c) == always_on_spec() + vsync_spec(c),
{
    assert(init_spec(c) =~= always_on_spec() + vsync_spec(c));
}

/// With mods on, the file functions are hooked, right after the always-on
/// hooks, whatever the renderer and display settings: mods are loaded
/// through them.
pub proof fn law_mods_on_hooks_files(c: Config)
    requires
        c.mods,
    ensures
        init_spec(c).len() >= 5,
        init_spec(c)[2] == HookTarget::OpenFile,
        init_spec(c)[3] == HookTarget::CloseFile,
        init_spec(c)[4] == HookTarget::ReadFile,
{
}

/// The high-quality asset pipeline is hooked exactly when both mods and
/// high-quality assets are on, and the video cutout hook only with it.
pub proof fn law_hq_assets_need_mods(c: Config)
    ensures
        (hq_assets_spec(c).len() > 0) == (c.mods && c.renderer.hq_assets),
        hq_assets_spec(c).contains(HookTarget::DrawIndexedPrimitives)
            == (c.mods && c.renderer.hq_assets && c.renderer.video_cutouts),
{
    if c.mods && c.renderer.hq_assets {
        let s = hq_assets_spec(c);
        if c.renderer.video_cutouts {
            assert(s[8] == HookTarget::DrawIndexedPrimitives);
        } else {
            assert(s.len() == 8);
            assert forall|i: int| 0 <= i < s.len() implies s[i] != HookTarget::DrawIndexedPrimitives by {}
        }
    }
}

/// Some functions are hooked always.
pub fn always_on_hooks() -> (r: Vec<HookTarget>)
    ensures
        r@ == always_on_spec(),
{
    let mut r = Vec::new();
    r.push(HookTarget::InitRenderers);
    r.push(HookTarget::RenderScene);
    assert(r@ =~= always_on_spec());
    r
}

/// Overload native IO functions to load modded files.
pub fn mods_hooks(config: &Config) -> (r: Vec<HookTarget>)
    ensures
        r@ == mods_spec(*config),
{
    let mut r = Vec::new();
    if !config.mods {
        assert(r@ =~= mods_spec(*config));
        return r;
    }
    r.push(HookTarget::OpenFile);
    r.push(HookTarget::CloseFile);
    r.push(HookTarget::ReadFile);
    assert(r@ =~= mods_spec(*config));
    r
}

/// Upgrade image loading and display pipeline to enable HD 32-bit assets.
pub fn hq_assets_hooks(config: &Config) -> (r: Vec<HookTarget>)
    ensures
        r@ == hq_assets_spec(*config),
{
    let mut r = Vec::new();
    if !config.mods || !config.renderer.hq_assets {
        assert(r@ =~= hq_assets_spec(*config));
        return r;
    }
    r.push(HookTarget::OpenBmImage);
    r.push(HookTarget::ManageResource);
    r.push(HookTarget::CopyImage);
    r.push(HookTarget::DecompressImage);
    r.push(HookTarget::BindImageSurface);
    r.push(HookTarget::SurfaceUpload);
    r.push(HookTarget::SetupDraw);
    r.push(HookTarget::DeleteTextures);
    if config.renderer.video_cutouts {
        r.push(HookTarget::DrawIndexedPrimitives);
    }
    assert(r@ =~= hq_assets_spec(*config));
    r
}

/// Force VSync to be always on.
pub fn vsync_hooks(config: &Config) -> (r: Vec<HookTarget>)
    ensures
        r@ == vsync_spec(*config),
{
    let mut r = Vec::new();
    if config.display.vsync {
        r.push(HookTarget::SetSwapInterval);
    }
    assert(r@ =~= vsync_spec(*config));
    r
}

/// Render the game at native resolution even on high-DPI screens (a fix
/// the Windows build applies).
pub fn hdpi_fix_hooks(config: &Config) -> (r: Vec<HookTarget>)
    ensures
        r@ == hdpi_fix_spec(*config),
{
    let mut r = Vec::new();
    if config.display.hdpi_fix {
        r.push(HookTarget::CreateWindow);
        r.push(HookTarget::GetDisplayBounds);
        r.push(HookTarget::GetCurrentDisplayMode);
    }
    assert(r@ =~= hdpi_fix_spec(*config));
    r
}

/// All the hooks to install at startup, in order: the always-on hooks, the
/// mod hooks, the high-quality asset hooks, the vsync hook.
pub fn init_hooks(config: &Config) -> (r: Vec<HookTarget>)
    ensures
        r@ == init_spec(*config),
{
    let mut r = always_on_hooks();
    let mut m = mods_hooks(config);
    let mut h = hq_assets_hooks(config);
    let mut v = vsync_hooks(config);
    r.append(&mut m);
    r.append(&mut h);
    r.append(&mut v);
    r
}

/// The next step of installing a hook plan.
#[derive(Debug)]
pub enum InstallStep {
    /// Hook this target and report how it went.
    Hook(HookTarget),
    /// The plan is over, with this result.
    Done(Result<(), HookError>),
}

/// The next step after `done` targets of `plan` were hooked and the last
/// attempt gave `last`: a failure ends the plan with its error, otherwise
/// the next target is hooked, and after the last one the plan succeeds.
pub open spec fn install_step_spec(plan: Seq<HookTarget>, done: int, last: Result<(), HookError>) -> InstallStep {
    match last {
        Err(e) => InstallStep::Done(Err(e)),
        Ok(()) => if 0 <= done < plan.len() {
            InstallStep::Hook(plan[done])
        } else {
            InstallStep::Done(Ok(()))
        },
    }
}

/// The next step of installing `plan`.
pub fn install_step(plan: &Vec<HookTarget>, done: usize, last: Result<(), HookError>) -> (r: InstallStep)
    ensures
        r == install_step_spec(plan@, done as int, last),
{
    match last {
        Err(e) => InstallStep::Done(Err(e)),
        Ok(()) => if done < plan.len() {
            InstallStep::Hook(plan[done])
        } else {
            InstallStep::Done(Ok(()))
        },
    }
}

/// Installing `plan` from `done` on, when the `i`-th hook attempt gives
/// `outcomes[i]` and the last attempt gave `last`: the targets attempted, in
/// order, and the result.
pub open spec fn run_install(plan: Seq<HookTarget>, outcomes: Seq<Result<(), HookError>>, done: nat, last: Result<(), HookError>) -> (Seq<HookTarget>, Result<(), HookError>)
    decreases plan.len() - done,
{
    match install_step_spec(plan, done as int, last) {
        InstallStep::Done(r) => (Seq::empty(), r),
        InstallStep::Hook(t) => {
            let (attempted, r) = run_install(plan, outcomes, done + 1, outcomes[done as int]);
            (seq![t] + attempted, r)
        },
    }
}

/// The first failure among `outcomes`, or success when there is none.
pub open spec fn first_error(outcomes: Seq<Result<(), HookError>>) -> Result<(), HookError>
    decreases outcomes.len(),
{
    if outcomes.len() == 0 {
        Ok(())
    } else if outcomes[0] is Err {
        outcomes[0]
    } else {
        first_error(outcomes.drop_first())
    }
}

/// The number of leading successes among `outcomes`.
pub open spec fn ok_prefix(outcomes: Seq<Result<(), HookError>>) -> nat
    decreases outcomes.len(),
{
    if outcomes.len() == 0 || outcomes[0] is Err {
        0
    } else {
        1 + ok_prefix(outcomes.drop_first())
    }
}

/// Installing a plan stops at the first failure: the targets are attempted
/// in order up to and including the first that fails (all of them when none
/// fails), and the result is the first failure, or success.
pub proof fn law_install_stops_at_first_error(plan: Seq<HookTarget>, outcomes: Seq<Result<(), HookError>>)
    requires
        outcomes.len() == plan.len(),
    ensures
        run_install(plan, outcomes, 0, Ok(())).1 == first_error(outcomes),
        run_install(plan, outcomes, 0, Ok(())).0 == (if ok_prefix(outcomes) < plan.len() {
            plan.take(ok_prefix(outcomes) + 1 as int)
        } else {
            plan
        }),
{
    lemma_run_install(plan, outcomes, 0, Ok(()));
    assert(outcomes.skip(0) =~= outcomes);
    assert(plan.skip(0) =~= plan);
}

proof fn lemma_run_install(plan: Seq<HookTarget>, outcomes: Seq<Result<(), HookError>>, done: nat, last: Result<(), HookError>)
    requires
        outcomes.len() == plan.len(),
        done <= plan.len(),
        last is Ok,
    ensures
        run_install(plan, outcomes, done, last).1 == first_error(outcomes.skip(done as int)),
        run_install(plan, outcomes, done, last).0 == (if ok_prefix(outcomes.skip(done as int)) < plan.len() - done {
            plan.skip(done as int).take(ok_prefix(outcomes.skip(done as int)) + 1 as int)
        } else {
            plan.skip(done as int)
        }),
    decreases plan.len() - done,
{
    let rest = outcomes.skip(done as int);
    if done < plan.len() {
        assert(rest[0] == outcomes[done as int]);
        assert(rest.drop_first() =~= outcomes.skip(done + 1 as int));
        assert(plan.skip(done as int).drop_first() =~= plan.skip(done + 1 as int));
        let t = plan[done as int];
        assert(install_step_spec(plan, done as int, last) == InstallStep::Hook(t));
        let next = run_install(plan, outcomes, done + 1, outcomes[done as int]);
        assert(run_install(plan, outcomes, done, last) == (seq![t] + next.0, next.1));
        if outcomes[done as int] is Err {
            assert(install_step_spec(plan, done + 1 as int, outcomes[done as int]) == InstallStep::Done(outcomes[done as int]));
            assert(next == (Seq::<HookTarget>::empty(), outcomes[done as int]));
            assert(first_error(rest) == rest[0]);
            assert(ok_prefix(rest) == 0);
            assert(plan.skip(done as int).take(1) =~= seq![t]);
            assert(seq![t] + Seq::<HookTarget>::empty() =~= seq![t]);
        } else {
            lemma_run_install(plan, outcomes, done + 1, outcomes[done as int]);
            let k = ok_prefix(outcomes.skip(done + 1 as int));
            assert(first_error(rest) == first_error(outcomes.skip(done + 1 as int)));
            assert(ok_prefix(rest) == k + 1);
            if k < plan.len() - (done + 1) {
                assert(seq![t] + plan.skip(done + 1 as int).take(k + 1 as int) =~= plan.skip(done as int).take(k + 2 as int));
            } else {
                assert(seq![t] + plan.skip(done + 1 as int) =~= plan.skip(done as int));
            }
        }
    } else {
        assert(rest.len() == 0);
        assert(plan.skip(done as int) =~= Seq::<HookTarget>::empty());
    }
}

/// Turns the error of a result into its message.
pub trait StringError<A>: Sized {
    /// The result with its error replaced by the error's message.
    fn string_err(self) -> Result<A, String>;
}

impl<A> StringError<A> for Result<A, BindError> {
    fn string_err(self) -> (r: Result<A, String>)
        ensures
            match self {
                Ok(v) => r == Ok::<A, String>(v),
                Err(e) => r matches Err(s) && s@ == bind_error_text(e),
            },
    {
        match self {
            Ok(v) => Ok(v),
            Err(e) => Err(e.message()),
        }
    }
}

impl<A> StringError<A> for Result<A, HookError> {
    fn string_err(self) -> (r: Result<A, String>)
        ensures
            match self {
                Ok(v) => r == Ok::<A, String>(v),
                Err(e) => r matches Err(s) && s@ == hook_error_text(e),
            },
    {
        match self {
            Ok(v) => Ok(v),
            Err(e) => Err(e.message()),
        }
    }
}

impl<A> StringError<A> for Result<A, UnhookError> {
    fn string_err(self) -> (r: Result<A, String>)
        ensures
            match self {
                Ok(v) => r == Ok::<A, String>(v),
                Err(e) => r matches Err(s) && s@ == unhook_error_text(e),
            },
    {
        match self {
            Ok(v) => Ok(v),
            Err(e) => Err(e.message()),
        }
    }
}

} // verus!
