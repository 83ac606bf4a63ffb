//! The data of aseprite's image+json sprite animations.
//!
//! In aseprite, go to file->export sprite sheet,
//! choose to export json data, and select "array" rather than "hash"
//! because that makes sense.
//!
//! Tested with aseprite 1.1.6, as on Debian Stretch.
//!
//! These are the values that a sprite sheet's json describes; reading and
//! writing the json itself happens where the files are.

use vstd::prelude::*;

verus! {

/// A rectangle of the sheet, in pixels.
#[derive(Clone, Copy, Debug, PartialEq, Eq)]
pub struct Rect {
    pub x: u32,
    pub y: u32,
    pub w: u32,
    pub h: u32,
}

/// A size, in pixels.
#[derive(Clone, Copy, Debug, PartialEq, Eq)]
pub struct Dimensions {
    pub w: u32,
    pub h: u32,
}

/// One frame of an animation.
#[derive(Clone, Debug, PartialEq, Eq)]
pub struct Frame {
    pub filename: String,
    pub frame: Rect,
    pub rotated: bool,
    pub trimmed: bool,
    /// Named `spriteSourceSize` in the json.
    pub sprite_source_size: Rect,
    /// Named `sourceSize` in the json.
    pub source_size: Dimensions,
    pub duration: u32,
}

/// A named run of frames.
#[derive(Clone, Debug, PartialEq, Eq)]
pub struct Frametag {
    pub name: String,
    pub from: u32,
    pub to: u32,
    pub direction: String,
}

/// A layer of the sprite.
#[derive(Clone, Debug, PartialEq, Eq)]
pub struct Layer {
    pub name: String,
    pub opacity: u32,
    /// Named `blendMode` in the json.
    pub blend_mode: String,
}

/// What the sheet says about itself.
#[derive(Clone, Debug, PartialEq, Eq)]
pub struct Metadata {
    pub app: String,
    pub version: String,
    pub format: String,
    pub size: Dimensions,
    pub scale: String,
    /// Named `frameTags` in the json.
    pub frame_tags: Vec<Frametag>,
    pub layers: Vec<Layer>,
}

/// A whole sprite sheet description.
#[derive(Clone, Debug, PartialEq, Eq)]
pub struct SpritesheetData {
    pub frames: Vec<Frame>,
    pub meta: Metadata,
}

} // verus!
