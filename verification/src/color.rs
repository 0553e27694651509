//! Colour tags attached to log messages and entity glyphs.
//!
//! The engine never draws anything; a colour is an opaque tag that the
//! presentation layer maps to whatever palette it owns.

use vstd::prelude::*;

verus! {

/// A named colour tag for glyphs and log lines.
#[derive(Clone, Copy, Debug, PartialEq, Eq, Structural)]
pub enum Color {
    Black,
    White,
    Red,
    DarkRed,
    DarkerRed,
    LightRed,
    Green,
    LightGreen,
    DesaturatedGreen,
    DarkerGreen,
    Yellow,
    LightYellow,
    Orange,
    DarkerOrange,
    LightBlue,
    Sky,
    Violet,
    LightViolet,
    LightCyan,
    LightGrey,
    DesaturatedFuchsia,
    Gold,
}

} // verus!
