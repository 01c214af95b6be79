//! Configuration defaults and validation.

use vstd::prelude::*;
use crate::errors::ConfigError;
use crate::frame::FrameId;

verus! {

/// Window width used when the configuration names none.
pub fn default_window_width() -> (r: u32)
    ensures
        r == 1280,
{
    1280
}

/// Window height used when the configuration names none.
pub fn default_window_height() -> (r: u32)
    ensures
        r == 800,
{
    800
}

/// Camera controller used when the configuration names none.
pub fn default_view_type() -> (r: String)
    ensures
        r@ == "Orbit"@,
{
    "Orbit".to_owned()
}

/// Default for flags that are on unless switched off.
pub fn default_true() -> (r: bool)
    ensures
        r,
{
    true
}

/// Fixed frame used when the configuration names none.
pub fn default_fixed_frame() -> (r: FrameId)
    ensures
        r@ == "world"@,
{
    FrameId::new("world")
}

/// Background color used when the configuration names none: dark gray.
pub fn default_background_color() -> (r: [u8; 4])
    ensures
        r@ == seq![48u8, 48u8, 48u8, 255u8],
{
    [48, 48, 48, 255]
}

/// Frame rate limit used when the configuration names none.
pub fn default_frame_rate() -> (r: u32)
    ensures
        r == 60,
{
    60
}

/// Configuration file version used when the file names none.
pub fn default_version() -> (r: String)
    ensures
        r@ == "1.0"@,
{
    "1.0".to_owned()
}

/// Window configuration.
#[derive(Debug, Clone)]
pub struct WindowConfig {
    /// Window width in pixels
    pub width: u32,
    /// Window height in pixels
    pub height: u32,
    /// Window X position (None = system default)
    pub x: Option<i32>,
    /// Window Y position (None = system default)
    pub y: Option<i32>,
    /// Whether window is maximized
    pub maximized: bool,
    /// Whether window is fullscreen
    pub fullscreen: bool,
}

impl Default for WindowConfig {
    fn default() -> (r: Self)
        ensures
            r.width == 1280,
            r.height == 800,
            r.x is None,
            r.y is None,
            !r.maximized,
            !r.fullscreen,
    {
        WindowConfig {
            width: default_window_width(),
            height: default_window_height(),
            x: None,
            y: None,
            maximized: false,
            fullscreen: false,
        }
    }
}

/// Global application settings.
#[derive(Debug, Clone)]
pub struct GlobalConfig {
    /// Fixed frame for visualization
    pub fixed_frame: FrameId,
    /// Background color [r, g, b, a]
    pub background_color: [u8; 4],
    /// Frame rate limit (0 = unlimited)
    pub frame_rate: u32,
    /// Show grid
    pub show_grid: bool,
    /// Show axes
    pub show_axes: bool,
}

impl Default for GlobalConfig {
    fn default() -> (r: Self)
        ensures
            r.fixed_frame@ == "world"@,
            r.background_color@ == seq![48u8, 48u8, 48u8, 255u8],
            r.frame_rate == 60,
            r.show_grid,
            r.show_axes,
    {
        GlobalConfig {
            fixed_frame: default_fixed_frame(),
            background_color: default_background_color(),
            frame_rate: default_frame_rate(),
            show_grid: true,
            show_axes: true,
        }
    }
}

/// The names of a sequence of strings.
pub open spec fn names_of(s: Seq<String>) -> Seq<Seq<char>> {
    s.map_values(|n: String| n@)
}

/// Name `j` repeats an earlier name.
pub open spec fn repeats_earlier(names: Seq<Seq<char>>, j: int) -> bool {
    exists|i: int| 0 <= i < j && names[i] == names[j]
}

/// Check a configuration: its version must be present and no two displays may
/// share a name. The error names the first display whose name was already used.
pub fn validate_config(version: &str, display_names: &Vec<String>) -> (r: Result<(), ConfigError>)
    ensures
        version@.len() == 0 ==> (r matches Err(ConfigError::InvalidConfig(m)) && m@ == "Missing version"@),
        version@.len() > 0 ==> match r {
            Ok(()) => forall|j: int|
                0 <= j < display_names@.len() ==> !repeats_earlier(names_of(display_names@), j),
            Err(ConfigError::InvalidConfig(m)) => exists|j: int|
                0 <= j < display_names@.len() && repeats_earlier(names_of(display_names@), j)
                    && (forall|k: int| 0 <= k < j ==> !repeats_earlier(names_of(display_names@), k))
                    && m@ == "Duplicate display name: "@ + display_names@[j]@,
            Err(_) => false,
        },
{
    if version.is_empty() {
        return Err(ConfigError::InvalidConfig("Missing version".to_owned()));
    }
    let ghost names = names_of(display_names@);
    let mut j: usize = 0;
    while j < display_names.len()
        invariant
            j <= display_names@.len(),
            version@.len() > 0,
            names == names_of(display_names@),
            forall|k: int| 0 <= k < j ==> !repeats_earlier(names, k),
        decreases display_names@.len() - j,
    {
        let mut i: usize = 0;
        while i < j
            invariant
                i <= j,
                j < display_names@.len(),
                version@.len() > 0,
                names == names_of(display_names@),
                forall|k: int| 0 <= k < j ==> !repeats_earlier(names, k),
                forall|a: int| 0 <= a < i ==> names[a] != names[j as int],
            decreases j - i,
        {
            if display_names[i] == display_names[j] {
                assert(names[i as int] == names[j as int]);
                assert(repeats_earlier(names, j as int));
                let mut m = "Duplicate display name: ".to_owned();
                m.append(display_names[j].as_str());
                return Err(ConfigError::InvalidConfig(m));
            }
            i = i + 1;
        }
        assert(!repeats_earlier(names, j as int));
        j = j + 1;
    }
    Ok(())
}

} // verus!
