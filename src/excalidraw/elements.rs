//! The style values that plain elements are drawn with.

use vstd::prelude::*;

verus! {

pub const ANGLE: i32 = 0;
pub const STROKE_COLOR: &'static str = "#000000";
pub const BACKGROUND_COLOR: &'static str = "transparent";
pub const FILL_STYLE: &'static str = "hachure";
pub const STROKE_WIDTH: i32 = 1;
pub const STROKE_STYLE: &'static str = "solid";
pub const ROUGHNESS: i32 = 0;
pub const OPACITY: i32 = 100;
pub const STROKE_SHARPNESS: &'static str = "sharp";
pub const LOCKED: bool = false;
pub const FONT_SIZE_SMALL: i32 = 16;
pub const FONT_SIZE_MEDIUM: i32 = 20;
pub const FONT_SIZE_LARGE: i32 = 28;
pub const FONT_SIZE_EXTRA_LARGE: i32 = 36;
pub const FONT_FAMILY_HAND_DRAWN: i32 = 1;
pub const FONT_FAMILY_NORMAL: i32 = 2;
pub const FONT_FAMILY_MONOSPACE: i32 = 3;
pub const TEXT_ALIGN_LEFT: &'static str = "left";
pub const TEXT_ALIGN_CENTER: &'static str = "center";
pub const TEXT_ALIGN_RIGHT: &'static str = "right";
pub const VERTICAL_ALIGN_TOP: &'static str = "top";
pub const VERTICAL_ALIGN_CENTER: &'static str = "center";
pub const VERTICAL_ALIGN_BOTTOM: &'static str = "bottom";
pub const BASELINE: i32 = 15;

} // verus!
