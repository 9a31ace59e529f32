use grimmod::config::{default_false, default_true, Config, Display, Logging, Renderer};
use grimmod::grim::Vector;
use grimmod::init::{
    always_on_hooks, hdpi_fix_hooks, hq_assets_hooks, init_hooks, install_step, mods_hooks, vsync_hooks,
    HookTarget, InstallStep,
};
use grimmod::memory_linux::HookError;
use grimmod::perf::{begin, enabled, end, frame_tick, init, report, Counter, Perf};
use grimmod::text::{dec_string, hex_string, numeral_string};

fn profiling_config() -> Config {
    let mut c = Config::default();
    c.logging.profile = true;
    c
}

#[test]
fn config_defaults() {
    let c = Config::default();
    assert!(c.mods);
    assert_eq!(c.renderer, Renderer { hq_assets: true, quick_toggle: true, video_cutouts: true });
    assert_eq!(c.display, Display { hdpi_fix: true, vsync: true });
    assert_eq!(c.logging, Logging { enabled: true, debug: false, profile: false });
    assert!(default_true());
    assert!(!default_false());
}

#[test]
fn config_load_falls_back_on_defaults() {
    assert_eq!(Config::load(None), Config::default());
    let mut c = Config::default();
    c.mods = false;
    c.display.vsync = false;
    assert_eq!(Config::load(Some(c)), c);
}

#[test]
fn hooks_of_the_default_configuration() {
    assert_eq!(
        init_hooks(&Config::default()),
        vec![
            HookTarget::InitRenderers, HookTarget::RenderScene, HookTarget::OpenFile, HookTarget::CloseFile, HookTarget::ReadFile, HookTarget::OpenBmImage,
            HookTarget::ManageResource, HookTarget::CopyImage, HookTarget::DecompressImage, HookTarget::BindImageSurface, HookTarget::SurfaceUpload,
            HookTarget::SetupDraw, HookTarget::DeleteTextures, HookTarget::DrawIndexedPrimitives, HookTarget::SetSwapInterval,
        ]
    );
}

#[test]
fn hooks_with_mods_off() {
    let mut c = Config::default();
    c.mods = false;
    assert_eq!(init_hooks(&c), vec![HookTarget::InitRenderers, HookTarget::RenderScene, HookTarget::SetSwapInterval]);
    assert_eq!(mods_hooks(&c), vec![]);
    assert_eq!(hq_assets_hooks(&c), vec![]);
    c.display.vsync = false;
    assert_eq!(init_hooks(&c), always_on_hooks());
}

#[test]
fn hooks_per_feature() {
    let mut c = Config::default();
    c.renderer.video_cutouts = false;
    assert_eq!(hq_assets_hooks(&c).len(), 8);
    assert!(!hq_assets_hooks(&c).contains(&HookTarget::DrawIndexedPrimitives));
    c.renderer.hq_assets = false;
    assert_eq!(hq_assets_hooks(&c), vec![]);
    assert_eq!(vsync_hooks(&c), vec![HookTarget::SetSwapInterval]);
    c.display.hdpi_fix = false;
    assert_eq!(hdpi_fix_hooks(&c), vec![]);
    c.display.hdpi_fix = true;
    assert_eq!(hdpi_fix_hooks(&c), vec![HookTarget::CreateWindow, HookTarget::GetDisplayBounds, HookTarget::GetCurrentDisplayMode]);
    // the Linux and macOS builds never install the high-DPI hooks
    assert!(!init_hooks(&c).contains(&HookTarget::CreateWindow));
}

#[test]
fn counter_accumulates_and_drains() {
    let mut c = Counter::new("setup_draw");
    c.record(100);
    c.record(300);
    c.record(200);
    assert_eq!(c.drain(), (600, 3, 300));
    assert_eq!(c.drain(), (0, 0, 0));
    c.record(u64::MAX);
    c.record(2);
    // the total wraps as the atomic addition does
    assert_eq!(c.drain(), (1, 2, u64::MAX));
}

#[test]
fn profiling_switch() {
    let mut p = Perf::new();
    assert!(!enabled(&p));
    assert!(begin(&p).is_none());
    init(&mut p, &profiling_config());
    assert!(enabled(&p));
    let start = begin(&p);
    assert!(start.is_some());
    let mut c = Counter::new("copy_image");
    end(start, &mut c);
    assert_eq!(c.drain().1, 1);
    end(None, &mut c);
    assert_eq!(c.drain(), (0, 0, 0));
}

#[test]
fn frame_tick_reports_every_interval() {
    let mut p = Perf::new();
    init(&mut p, &profiling_config());
    let mut counters = vec![Counter::new("setup_draw"), Counter::new("copy_image")];
    counters[0].record(1_500_000);
    counters[0].record(2_500_000);
    for _ in 0..119 {
        assert!(frame_tick(&mut p, &mut counters, 1_000_000).is_none());
    }
    let r = frame_tick(&mut p, &mut counters, 3_000_000).expect("a report at frame 120");
    assert_eq!(r.frame, 120);
    // (119 ms + 3 ms) / 120 frames = 1016 us
    assert_eq!((r.avg_ms, r.avg_ms_hundredths), (1, 1));
    assert_eq!((r.max_ms, r.max_ms_hundredths), (3, 0));
    assert_eq!(r.avg_fps, 984);
    assert_eq!(r.lines.len(), 1);
    let l = &r.lines[0];
    assert_eq!(l.name, "setup_draw");
    assert_eq!(l.calls, 2);
    assert_eq!((l.avg_us, l.avg_ns), (2000, 0));
    assert_eq!(l.max_us, 2500);
    assert_eq!(l.per_frame_us, 33);
    // everything starts again from zero
    assert_eq!(counters[0].drain(), (0, 0, 0));
    for _ in 0..119 {
        assert!(frame_tick(&mut p, &mut counters, 500).is_none());
    }
    let r = frame_tick(&mut p, &mut counters, 500).expect("a report at frame 240");
    assert_eq!(r.frame, 240);
    assert_eq!((r.avg_ms, r.avg_ms_hundredths, r.avg_fps), (0, 0, 0));
    assert!(r.lines.is_empty());
}

#[test]
fn frame_tick_off_does_nothing() {
    let mut p = Perf::new();
    let mut counters = vec![Counter::new("x")];
    counters[0].record(5);
    for _ in 0..240 {
        assert!(frame_tick(&mut p, &mut counters, 1_000).is_none());
    }
    assert_eq!(counters[0].drain(), (5, 1, 5));
}

#[test]
fn report_rounds_down() {
    let mut p = Perf::new();
    let mut counters = vec![Counter::new("a"), Counter::new("b")];
    counters[1].record(1_234_567);
    let r = report(&mut p, &mut counters, 7);
    assert_eq!(r.frame, 7);
    assert_eq!(r.lines.len(), 1);
    assert_eq!(r.lines[0].name, "b");
    assert_eq!((r.lines[0].avg_us, r.lines[0].avg_ns, r.lines[0].max_us), (1234, 567, 1234));
    assert_eq!(r.lines[0].per_frame_us, 10);
}

#[test]
fn numerals() {
    assert_eq!(dec_string(0), "0");
    assert_eq!(dec_string(1234567890), "1234567890");
    assert_eq!(dec_string(u64::MAX), "18446744073709551615");
    assert_eq!(hex_string(0xabc, 8), "00000abc");
    assert_eq!(hex_string(0xdeadbeef, 2), "deadbeef");
    assert_eq!(hex_string(0, 0), "0");
    assert_eq!(numeral_string(255, 16), "ff");
}

#[test]
fn game_vector_length() {
    let v: Vector<u32> = Vector::new(0x1000, 0x1010, 0x1020);
    assert_eq!(v.len(), 4);
    let empty: Vector<u64> = Vector::new(0, 0, 0);
    assert_eq!(empty.len(), 0);
}

fn drive(plan: &Vec<HookTarget>, fail_at: Option<usize>) -> (Vec<HookTarget>, Result<(), HookError>) {
    let mut attempted = Vec::new();
    let mut done = 0;
    let mut last = Ok(());
    loop {
        match install_step(plan, done, last) {
            InstallStep::Hook(t) => {
                attempted.push(t);
                last = if Some(done) == fail_at {
                    Err(HookError::AlreadyHooked(String::from("read_file")))
                } else {
                    Ok(())
                };
                done += 1;
            }
            InstallStep::Done(r) => return (attempted, r),
        }
    }
}

#[test]
fn install_stops_at_first_failure() {
    let plan = init_hooks(&Config::default());
    let (attempted, r) = drive(&plan, Some(4));
    assert_eq!(attempted, plan[..5].to_vec());
    assert!(matches!(r, Err(HookError::AlreadyHooked(n)) if n == "read_file"));
    let (attempted, r) = drive(&plan, None);
    assert_eq!(attempted, plan);
    assert!(r.is_ok());
    let (attempted, r) = drive(&vec![], None);
    assert!(attempted.is_empty() && r.is_ok());
}
