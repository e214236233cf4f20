//! The immutable value type describing one display's logical geometry, as
//! the display-server enumeration hands it to the solver.

use vstd::prelude::*;

verus! {

/// One display: a unique name, a position that may be negative, and the
/// logical size as reported.  `initial_width`/`initial_height` keep the
/// size before any solver-applied scaling, so the solver can re-center a
/// scaled box around the original one.
#[derive(Clone)]
pub struct Monitor {
    pub name: String,
    pub width: u32,
    pub height: u32,
    pub initial_width: u32,
    pub initial_height: u32,
    pub x: i32,
    pub y: i32,
}

impl Monitor {
    /// The stable text form fed into hash computations: name, position and
    /// working size, concatenated.
    pub fn to_string(&self) -> (r: String)
        ensures
            r@ == self.name@ + crate::text::dec_str_signed(self.x as int)
                + crate::text::dec_str_signed(self.y as int) + crate::text::dec_str(
                self.width as int,
            ) + crate::text::dec_str(self.height as int),
    {
        let mut s = self.name.clone();
        s.append(crate::text::i32_to_string(self.x).as_str());
        s.append(crate::text::i32_to_string(self.y).as_str());
        s.append(crate::text::u32_to_string(self.width).as_str());
        s.append(crate::text::u32_to_string(self.height).as_str());
        s
    }
}

/// A monitor as a compositor command interface reports it, before the
/// reported transform is applied.
pub struct HyprMonitor {
    pub name: String,
    pub width: u32,
    pub height: u32,
    pub x: i32,
    pub y: i32,
}

impl HyprMonitor {
    /// Builds the monitor from reported values, swapping width and height
    /// when the output is rotated a quarter turn either way.
    pub fn new(name: String, width: u32, height: u32, x: i32, y: i32, rotated: bool) -> (r:
        HyprMonitor)
        ensures
            r.name == name,
            r.x == x,
            r.y == y,
            rotated ==> r.width == height && r.height == width,
            !rotated ==> r.width == width && r.height == height,
    {
        if rotated {
            HyprMonitor { name, width: height, height: width, x, y }
        } else {
            HyprMonitor { name, width, height, x, y }
        }
    }
}

} // verus!
