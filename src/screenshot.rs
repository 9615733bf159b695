//! The captured monitor image and the geometry it is taken from.
use vstd::prelude::*;

verus! {

/// A PNG image of one monitor and where that monitor lies.
pub struct ScreenshotResult {
    pub width: u32,
    pub height: u32,
    pub origin_x: i32,
    pub origin_y: i32,
    pub bytes: Vec<u8>,
}

/// Width and height of a monitor rectangle, where both are positive and fit an `i32`.
pub open spec fn extent(left: i32, top: i32, right: i32, bottom: i32) -> Option<(u32, u32)> {
    let w = right - left;
    let h = bottom - top;
    if 0 < w <= i32::MAX && 0 < h <= i32::MAX {
        Some((w as u32, h as u32))
    } else {
        None
    }
}

/// The width and height of the monitor rectangle; none where it is empty.
pub fn monitor_extent(left: i32, top: i32, right: i32, bottom: i32) -> (r: Option<(u32, u32)>)
    ensures
        r == extent(left, top, right, bottom),
{
    let w: i64 = right as i64 - left as i64;
    let h: i64 = bottom as i64 - top as i64;
    if 0 < w && w <= i32::MAX as i64 && 0 < h && h <= i32::MAX as i64 {
        Some((w as u32, h as u32))
    } else {
        None
    }
}

} // verus!
