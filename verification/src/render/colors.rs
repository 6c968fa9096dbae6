//! Color constants

use super::Color;
use vstd::prelude::*;

verus! {

pub const BLACK: Color = 0xFF000000;

pub const WHITE: Color = 0xFFFFFFFF;

pub const RED: Color = 0xFFFF0000;

pub const GREEN: Color = 0xFF00FF00;

pub const BLUE: Color = 0xFF0000FF;

pub const YELLOW: Color = 0xFFFFFF00;

pub const CYAN: Color = 0xFF00FFFF;

pub const MAGENTA: Color = 0xFFFF00FF;

} // verus!
