//! Colors and the choices that select how points are colored.

use vstd::prelude::*;

verus! {

/// RGBA color with u8 components.
#[derive(Debug, Clone, Copy, PartialEq, Eq)]
pub struct Color {
    pub r: u8,
    pub g: u8,
    pub b: u8,
    pub a: u8,
}

impl Color {
    /// The color white.
    pub fn white() -> (c: Color)
        ensures
            c == (Color { r: 255, g: 255, b: 255, a: 255 }),
    {
        Color { r: 255, g: 255, b: 255, a: 255 }
    }

    /// The color black.
    pub fn black() -> (c: Color)
        ensures
            c == (Color { r: 0, g: 0, b: 0, a: 255 }),
    {
        Color { r: 0, g: 0, b: 0, a: 255 }
    }

    /// The color red.
    pub fn red() -> (c: Color)
        ensures
            c == (Color { r: 255, g: 0, b: 0, a: 255 }),
    {
        Color { r: 255, g: 0, b: 0, a: 255 }
    }

    /// The color green.
    pub fn green() -> (c: Color)
        ensures
            c == (Color { r: 0, g: 255, b: 0, a: 255 }),
    {
        Color { r: 0, g: 255, b: 0, a: 255 }
    }

    /// The color blue.
    pub fn blue() -> (c: Color)
        ensures
            c == (Color { r: 0, g: 0, b: 255, a: 255 }),
    {
        Color { r: 0, g: 0, b: 255, a: 255 }
    }

    /// The color yellow.
    pub fn yellow() -> (c: Color)
        ensures
            c == (Color { r: 255, g: 255, b: 0, a: 255 }),
    {
        Color { r: 255, g: 255, b: 0, a: 255 }
    }

    /// The color cyan.
    pub fn cyan() -> (c: Color)
        ensures
            c == (Color { r: 0, g: 255, b: 255, a: 255 }),
    {
        Color { r: 0, g: 255, b: 255, a: 255 }
    }

    /// The color magenta.
    pub fn magenta() -> (c: Color)
        ensures
            c == (Color { r: 255, g: 0, b: 255, a: 255 }),
    {
        Color { r: 255, g: 0, b: 255, a: 255 }
    }

    /// The color orange.
    pub fn orange() -> (c: Color)
        ensures
            c == (Color { r: 255, g: 165, b: 0, a: 255 }),
    {
        Color { r: 255, g: 165, b: 0, a: 255 }
    }

    /// The color gray.
    pub fn gray() -> (c: Color)
        ensures
            c == (Color { r: 128, g: 128, b: 128, a: 255 }),
    {
        Color { r: 128, g: 128, b: 128, a: 255 }
    }

    /// The color transparent.
    pub fn transparent() -> (c: Color)
        ensures
            c == (Color { r: 0, g: 0, b: 0, a: 0 }),
    {
        Color { r: 0, g: 0, b: 0, a: 0 }
    }

    /// Create from RGB values, fully opaque.
    pub fn rgb(r: u8, g: u8, b: u8) -> (c: Color)
        ensures
            c == (Color { r, g, b, a: 255 }),
    {
        Color { r, g, b, a: 255 }
    }

    /// Create from RGBA values.
    pub fn rgba(r: u8, g: u8, b: u8, a: u8) -> (c: Color)
        ensures
            c == (Color { r, g, b, a }),
    {
        Color { r, g, b, a }
    }

    /// Convert to u8 array [r, g, b, a].
    pub fn to_rgba(&self) -> (v: [u8; 4])
        ensures
            v@ == seq![self.r, self.g, self.b, self.a],
    {
        [self.r, self.g, self.b, self.a]
    }

    /// Convert to u8 array [r, g, b].
    pub fn to_rgb(&self) -> (v: [u8; 3])
        ensures
            v@ == seq![self.r, self.g, self.b],
    {
        [self.r, self.g, self.b]
    }

    /// The same color with alpha `a`.
    pub fn with_alpha(self, a: u8) -> (c: Color)
        ensures
            c == (Color { a, ..self }),
    {
        Color { a, ..self }
    }
}

impl Default for Color {
    fn default() -> (c: Self)
        ensures
            c == (Color { r: 255, g: 255, b: 255, a: 255 }),
    {
        Color::white()
    }
}

impl From<[u8; 3]> for Color {
    fn from(rgb: [u8; 3]) -> (c: Self) {
        Color::rgb(rgb[0], rgb[1], rgb[2])
    }
}

impl vstd::std_specs::convert::FromSpecImpl<[u8; 3]> for Color {
    open spec fn obeys_from_spec() -> bool {
        true
    }

    open spec fn from_spec(rgb: [u8; 3]) -> Self {
        Color { r: rgb@[0], g: rgb@[1], b: rgb@[2], a: 255 }
    }
}

impl From<[u8; 4]> for Color {
    fn from(rgba: [u8; 4]) -> (c: Self) {
        Color::rgba(rgba[0], rgba[1], rgba[2], rgba[3])
    }
}

impl vstd::std_specs::convert::FromSpecImpl<[u8; 4]> for Color {
    open spec fn obeys_from_spec() -> bool {
        true
    }

    open spec fn from_spec(rgba: [u8; 4]) -> Self {
        Color { r: rgba@[0], g: rgba@[1], b: rgba@[2], a: rgba@[3] }
    }
}

/// Predefined colormaps for visualization.
#[derive(Debug, Clone, Copy, PartialEq, Eq, Default)]
pub enum Colormap {
    #[default]
    Jet,
    Rainbow,
    Turbo,
    Viridis,
    Grayscale,
    Hot,
    Cool,
    Plasma,
}

/// Axis for color mapping.
#[derive(Debug, Clone, Copy, PartialEq, Eq, Default)]
pub enum Axis {
    X,
    Y,
    #[default]
    Z,
}

/// Visual style for point cloud rendering.
#[derive(Debug, Clone, Copy, PartialEq, Eq, Default)]
pub enum PointCloudStyle {
    #[default]
    Points,
    Squares,
    Circles,
    Spheres,
    Boxes,
}

} // verus!
