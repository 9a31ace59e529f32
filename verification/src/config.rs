//! The user configuration, read from `grimmod.toml` by the application.

use vstd::prelude::*;

verus! {

/// Which features of the loader are switched on.
#[derive(Clone, Copy, Debug, PartialEq, Eq, Structural)]
pub struct Config {
    /// Load asset mods from the `Mods` folder.
    pub mods: bool,
    pub renderer: Renderer,
    pub display: Display,
    pub logging: Logging,
}

/// Display options.
#[derive(Clone, Copy, Debug, PartialEq, Eq, Structural)]
pub struct Display {
    /// Render at the window's real resolution on high-DPI screens (on by
    /// default; the hooks it calls for are installed by the Windows build).
    pub hdpi_fix: bool,
    /// Force vertical sync in game.
    pub vsync: bool,
}

/// Renderer options.
#[derive(Clone, Copy, Debug, PartialEq, Eq, Structural)]
pub struct Renderer {
    /// Upgrade the image pipeline to high-quality 32-bit assets.
    pub hq_assets: bool,
    /// Make the original/remastered renderer toggle instant.
    pub quick_toggle: bool,
    /// Cut video frames out so that bitmap underlays show through.
    pub video_cutouts: bool,
}

/// Logging options.
#[derive(Clone, Copy, Debug, PartialEq, Eq, Structural)]
pub struct Logging {
    pub enabled: bool,
    pub debug: bool,
    /// Per-frame profiling of the hooks (`logging.profile` in the file).
    pub profile: bool,
}

/// The value of every field that the configuration file leaves out.
pub open spec fn default_config() -> Config {
    Config {
        mods: true,
        renderer: Renderer { hq_assets: true, quick_toggle: true, video_cutouts: true },
        display: Display { hdpi_fix: true, vsync: true },
        logging: Logging { enabled: true, debug: false, profile: false },
    }
}

impl Default for Config {
    fn default() -> (c: Config)
        ensures
            c == default_config(),
    {
        Config {
            mods: true,
            renderer: Renderer::default(),
            display: Display::default(),
            logging: Logging::default(),
        }
    }
}

impl Default for Display {
    fn default() -> (d: Display)
        ensures
            d == default_config().display,
    {
        Display { hdpi_fix: true, vsync: true }
    }
}

impl Default for Renderer {
    fn default() -> (r: Renderer)
        ensures
            r == default_config().renderer,
    {
        Renderer { hq_assets: true, quick_toggle: true, video_cutouts: true }
    }
}

impl Default for Logging {
    fn default() -> (l: Logging)
        ensures
            l == default_config().logging,
    {
        Logging { enabled: true, debug: false, profile: false }
    }
}

/// The default of a field that is on unless the file says otherwise.
pub fn default_true() -> (b: bool)
    ensures
        b,
{
    true
}

/// The default of a field that is off unless the file says otherwise.
pub fn default_false() -> (b: bool)
    ensures
        !b,
{
    false
}

impl Config {
    /// The configuration in effect: the parsed file when it could be read and
    /// parsed, the defaults otherwise.
    pub fn load(parsed: Option<Config>) -> (c: Config)
        ensures
            c == match parsed {
                Some(p) => p,
                None => default_config(),
            },
    {
        match parsed {
            Some(p) => p,
            None => Config::default(),
        }
    }
}

} // verus!
